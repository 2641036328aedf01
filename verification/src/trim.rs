//! Trimming the cache down to a size limit: the most recently used items stay until the limit
//! is reached, everything older goes.
use vstd::prelude::*;

use crate::order::{desc_order, goes_before, is_desc_order, lemma_desc_order_exists, order_by_key_desc};
use crate::remove::{remove_file, removal_message, DryRunMessage, FileRemoval};
use crate::text::push_str;

verus! {

/// Why a `--limit` argument was refused.
#[derive(Debug, PartialEq, Eq)]
pub enum TrimError {
    /// The unit (last character) of the limit is none of `B`, `K`, `M`, `G`, `T`.
    TrimLimitUnitParseFailure(String),
}

/// The text explaining a refused limit.
pub open spec fn trim_error_text(limit: Seq<char>) -> Seq<char> {
    "Failed to parse limit: \""@ + limit + "\". Should be of the form 123X where X is one of B,K,M,G or T."@
}

impl TrimError {
    /// The text explaining the error.
    pub fn message(&self) -> (s: String)
        ensures
            match self {
                TrimError::TrimLimitUnitParseFailure(l) => s@ == trim_error_text(l@),
            },
    {
        match self {
            TrimError::TrimLimitUnitParseFailure(limit) => {
                let mut s = String::new();
                push_str(&mut s, "Failed to parse limit: \"");
                push_str(&mut s, limit.as_str());
                push_str(&mut s, "\". Should be of the form 123X where X is one of B,K,M,G or T.");
                s
            },
        }
    }
}

/// The number of bytes a unit letter stands for, if it is one (either case).
pub open spec fn unit_bytes(c: char) -> Option<u64> {
    if c == 'b' || c == 'B' {
        Some(1u64)
    } else if c == 'k' || c == 'K' {
        Some(1024u64)
    } else if c == 'm' || c == 'M' {
        Some(1048576u64)
    } else if c == 'g' || c == 'G' {
        Some(1073741824u64)
    } else if c == 't' || c == 'T' {
        Some(1099511627776u64)
    } else {
        None
    }
}

/// The multiplier of a `--limit` argument, given by its last character: 0 for an empty limit,
/// the bytes of its unit, or an error naming the limit when the last character is no unit.
pub fn size_limit_unit(limit: &str) -> (r: Result<u64, TrimError>)
    ensures
        limit@.len() == 0 ==> r == Ok::<u64, TrimError>(0),
        limit@.len() > 0 ==> match unit_bytes(limit@.last()) {
            Some(n) => r == Ok::<u64, TrimError>(n),
            None => r matches Err(TrimError::TrimLimitUnitParseFailure(l)) && l@ == limit@,
        },
{
    let cs = crate::text::chars_of(limit);
    if cs.len() == 0 {
        return Ok(0);
    }
    let c = cs[cs.len() - 1];
    if c == 'b' || c == 'B' {
        Ok(1)
    } else if c == 'k' || c == 'K' {
        Ok(1024)
    } else if c == 'm' || c == 'M' {
        Ok(1024 * 1024)
    } else if c == 'g' || c == 'G' {
        Ok(1024 * 1024 * 1024)
    } else if c == 't' || c == 'T' {
        Ok(1024 * 1024 * 1024 * 1024)
    } else {
        let mut l = String::new();
        push_str(&mut l, limit);
        Err(TrimError::TrimLimitUnitParseFailure(l))
    }
}

/// An item of the cache, with the time it was last used (a larger key is more recent) and its
/// size.
pub struct TrimItem {
    pub path: String,
    pub last_access: u64,
    pub size: u64,
}

/// The access keys of the items.
pub open spec fn access_keys(items: Seq<TrimItem>) -> Seq<u64> {
    items.map_values(|i: TrimItem| i.last_access)
}

/// The sum of the sizes of the items at the first `n` positions of the order `p`.
pub open spec fn size_up_to(items: Seq<TrimItem>, p: Seq<int>, n: int) -> nat
    decreases n,
{
    if n <= 0 {
        0
    } else {
        size_up_to(items, p, n - 1) + items[p[n - 1]].size as nat
    }
}

/// The items removed when trimming to `limit`, most recently used first: walking from the most
/// recently used item (later positions first among equal times), each item whose size brings the
/// running total above the limit.
pub open spec fn trimmed_items(items: Seq<TrimItem>, limit: u64, n: int) -> Seq<int>
    decreases n,
{
    if n <= 0 {
        seq![]
    } else {
        let p = desc_order(access_keys(items));
        let rest = trimmed_items(items, limit, n - 1);
        if size_up_to(items, p, n) > limit {
            rest.push(p[n - 1])
        } else {
            rest
        }
    }
}

/// The items removed when trimming to `limit`: none when the limit exceeds the size of the cache
/// (`total_cache_size`), else those that `trimmed_items` gives.
pub open spec fn trim_removed(items: Seq<TrimItem>, limit: u64, total_cache_size: u64) -> Seq<int> {
    if limit > total_cache_size {
        seq![]
    } else {
        trimmed_items(items, limit, items.len() as int)
    }
}

/// The first `n` sizes of an order sum to at most `n` times the largest size.
proof fn lemma_size_up_to_le(items: Seq<TrimItem>, p: Seq<int>, n: int)
    requires
        0 <= n,
    ensures
        size_up_to(items, p, n) <= n * (u64::MAX as int),
    decreases n,
{
    if n > 0 {
        lemma_size_up_to_le(items, p, n - 1);
        let prev = size_up_to(items, p, n - 1);
        let s = items[p[n - 1]].size as int;
        assert(prev + s <= n * (u64::MAX as int)) by (nonlinear_arith)
            requires
                prev <= (n - 1) * (u64::MAX as int),
                s <= u64::MAX as int,
        ;
    }
}

/// Decides the trimming of the cache to `size_limit` bytes. `items` are the git checkouts, bare
/// repositories, crate archives and extracted sources, in that order, with their last use and
/// size; `total_cache_size` is their size as the caches account it. Walking from the most
/// recently used item, every item whose size brings the running total above the limit is
/// removed with the default messages; nothing goes when the limit exceeds the cache's size.
pub fn trim_cache(size_limit: u64, total_cache_size: u64, items: &Vec<TrimItem>, dry_run: bool) -> (r: Vec<FileRemoval>)
    ensures
        r@.len() == trim_removed(items@, size_limit, total_cache_size).len(),
        forall|k: int| 0 <= k < r@.len() ==> {
            let at = trim_removed(items@, size_limit, total_cache_size)[k];
            &&& 0 <= at < items@.len()
            &&& (#[trigger] r@[k]).path@ == items@[at].path@
            &&& r@[k].message.deep_view() == removal_message(items@[at].path@, dry_run, None, DryRunMessage::Default, None)
            &&& r@[k].delete == !dry_run
        },
{
    let mut r: Vec<FileRemoval> = Vec::new();
    if size_limit > total_cache_size {
        return r;
    }
    let mut keys: Vec<u64> = Vec::new();
    let mut i: usize = 0;
    while i < items.len()
        invariant
            i <= items.len(),
            keys@ == access_keys(items@).take(i as int),
        decreases items.len() - i,
    {
        keys.push(items[i].last_access);
        assert(keys@ =~= access_keys(items@).take(i + 1));
        i = i + 1;
    }
    assert(keys@ =~= access_keys(items@));
    let order = order_by_key_desc(&keys);
    let ghost p = desc_order(access_keys(items@));
    assert(is_desc_order(access_keys(items@), p));
    let mut cache_size: u128 = 0;
    let mut k: usize = 0;
    while k < order.len()
        invariant
            k <= order.len(),
            order@.len() == items@.len(),
            order@.map_values(|i: usize| i as int) == p,
            p == desc_order(access_keys(items@)),
            is_desc_order(access_keys(items@), p),
            cache_size == size_up_to(items@, p, k as int),
            r@.len() == trimmed_items(items@, size_limit, k as int).len(),
            forall|j: int| 0 <= j < r@.len() ==> {
                let at = trimmed_items(items@, size_limit, k as int)[j];
                &&& 0 <= at < items@.len()
                &&& (#[trigger] r@[j]).path@ == items@[at].path@
                &&& r@[j].message.deep_view() == removal_message(items@[at].path@, dry_run, None, DryRunMessage::Default, None)
                &&& r@[j].delete == !dry_run
            },
        decreases order.len() - k,
    {
        assert(p[k as int] == order@[k as int] as int);
        let at = order[k];
        proof {
            lemma_size_up_to_le(items@, p, k as int);
            let kk = k as int;
            assert(kk * (u64::MAX as int) + (u64::MAX as int) <= u128::MAX) by (nonlinear_arith)
                requires
                    0 <= kk <= u64::MAX as int,
            ;
        }
        assert(items@[p[k as int]] == items@[at as int]);
        cache_size = cache_size + items[at].size as u128;
        let ghost old_trim = trimmed_items(items@, size_limit, k as int);
        assert(size_up_to(items@, p, k + 1) == cache_size);
        if cache_size > size_limit as u128 {
            assert(trimmed_items(items@, size_limit, k + 1) == old_trim.push(p[k as int]));
            let rm = remove_file(items[at].path.as_str(), dry_run, None, &DryRunMessage::Default, None);
            let ghost before = r@;
            r.push(rm);
            assert forall|j: int| 0 <= j < r@.len() implies {
                let a2 = trimmed_items(items@, size_limit, k + 1)[j];
                &&& 0 <= a2 < items@.len()
                &&& (#[trigger] r@[j]).path@ == items@[a2].path@
                &&& r@[j].message.deep_view() == removal_message(items@[a2].path@, dry_run, None, DryRunMessage::Default, None)
                &&& r@[j].delete == !dry_run
            } by {
                if j < before.len() {
                    assert(r@[j] == before[j]);
                    assert(trimmed_items(items@, size_limit, k + 1)[j] == old_trim[j]);
                }
            }
        } else {
            assert(trimmed_items(items@, size_limit, k + 1) == old_trim);
        }
        k = k + 1;
    }
    r
}

/// Trimming removes a run of the least recently used items: when the item at position `b` of the
/// recency order stays (the running total up to it is within the limit), every more recently
/// used item at `a <= b` stays too, and together they take at most the limit.
pub proof fn lemma_kept_items_fit(items: Seq<TrimItem>, limit: u64, a: int, b: int)
    requires
        0 <= a <= b,
        size_up_to(items, desc_order(access_keys(items)), b + 1) <= limit,
    ensures
        size_up_to(items, desc_order(access_keys(items)), a + 1) <= limit,
    decreases b - a,
{
    if a < b {
        lemma_kept_items_fit(items, limit, a + 1, b);
    }
}

/// Running totals only grow along the order.
proof fn lemma_size_up_to_monotone(items: Seq<TrimItem>, p: Seq<int>, a: int, b: int)
    requires
        a <= b,
    ensures
        size_up_to(items, p, a) <= size_up_to(items, p, b),
    decreases b - a,
{
    if a < b {
        lemma_size_up_to_monotone(items, p, a, b - 1);
    }
}

/// The first `n` steps of trimming remove the positions `m..n` of the recency order, where `m`
/// is where the running total first exceeds the limit.
proof fn lemma_trimmed_is_tail(items: Seq<TrimItem>, limit: u64, n: int) -> (m: int)
    requires
        0 <= n <= items.len(),
        desc_order(access_keys(items)).len() == items.len(),
    ensures
        0 <= m <= n,
        trimmed_items(items, limit, n) == desc_order(access_keys(items)).subrange(m, n),
        forall|k: int| 0 <= k < m ==> #[trigger] size_up_to(items, desc_order(access_keys(items)), k + 1) <= limit,
        forall|k: int| m <= k < n ==> #[trigger] size_up_to(items, desc_order(access_keys(items)), k + 1) > limit,
    decreases n,
{
    let p = desc_order(access_keys(items));
    if n == 0 {
        assert(trimmed_items(items, limit, 0) =~= p.subrange(0, 0));
        0
    } else {
        let m0 = lemma_trimmed_is_tail(items, limit, n - 1);
        let rest = trimmed_items(items, limit, n - 1);
        if m0 < n - 1 {
            lemma_size_up_to_monotone(items, p, m0 + 1, n);
            assert(size_up_to(items, p, n) > limit);
            assert(trimmed_items(items, limit, n) == rest.push(p[n - 1]));
            assert(p.subrange(m0, n - 1).push(p[n - 1]) =~= p.subrange(m0, n));
            assert forall|k: int| m0 <= k < n implies #[trigger] size_up_to(items, p, k + 1) > limit by {
                if k == n - 1 {
                }
            }
            m0
        } else if size_up_to(items, p, n) > limit {
            assert(trimmed_items(items, limit, n) == rest.push(p[n - 1]));
            assert(p.subrange(n - 1, n - 1).push(p[n - 1]) =~= p.subrange(n - 1, n));
            n - 1
        } else {
            assert(trimmed_items(items, limit, n) == rest);
            assert(p.subrange(n - 1, n - 1) =~= p.subrange(n, n));
            assert forall|k: int| 0 <= k < n implies #[trigger] size_up_to(items, p, k + 1) <= limit by {
                if k == n - 1 {
                }
            }
            n
        }
    }
}

/// Trimming removes exactly the least recently used end of the cache: going through the items
/// from the most recently used (`desc_order` of the access times), the removed items are all
/// those from the first one whose running total of sizes exceeds the limit on, in that order;
/// the running total up to every item before them is within the limit, and up to every removed
/// item beyond it.
pub proof fn lemma_trim_removes_least_recent(items: Seq<TrimItem>, limit: u64)
    ensures
        exists|m: int|
            0 <= m <= items.len() && trimmed_items(items, limit, items.len() as int) == desc_order(
                access_keys(items),
            ).subrange(m, items.len() as int) && (forall|k: int| 0 <= k < m ==> #[trigger] size_up_to(
                items,
                desc_order(access_keys(items)),
                k + 1,
            ) <= limit) && (forall|k: int| m <= k < items.len() ==> #[trigger] size_up_to(
                items,
                desc_order(access_keys(items)),
                k + 1,
            ) > limit),
{
    lemma_desc_order_exists(access_keys(items));
    let m = lemma_trimmed_is_tail(items, limit, items.len() as int);
}

/// Trimming never keeps an item that was used less recently than one it removes: when item `i`
/// is removed, every item `j` with an earlier access time is removed too.
pub proof fn lemma_trim_spares_no_older_item(items: Seq<TrimItem>, limit: u64, i: int, j: int)
    requires
        0 <= i < items.len(),
        0 <= j < items.len(),
        trimmed_items(items, limit, items.len() as int).contains(i),
        items[j].last_access < items[i].last_access,
    ensures
        trimmed_items(items, limit, items.len() as int).contains(j),
{
    let keys = access_keys(items);
    let p = desc_order(keys);
    let n = items.len() as int;
    lemma_desc_order_exists(keys);
    let m = lemma_trimmed_is_tail(items, limit, n);
    let t = trimmed_items(items, limit, n);
    let x = choose|x: int| 0 <= x < t.len() && t[x] == i;
    let a = m + x;
    assert(p[a] == i);
    assert(p.contains(j));
    let b = choose|b: int| 0 <= b < p.len() && p[b] == j;
    if b < a {
        assert(goes_before(keys, p[b], p[a]));
        assert(keys[j] == items[j].last_access);
        assert(keys[i] == items[i].last_access);
        assert(false);
    }
    assert(b != a);
    assert(t[b - m] == j);
}

} // verus!
