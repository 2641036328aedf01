//! Ordering items by a size, largest first.
//!
//! Lists of crates and files are shown largest first. They are sorted by a stable ascending sort
//! on the size and then reversed, so that among items of equal size the one that came later in
//! the input comes first. The order is given here as a permutation of the input positions.
use vstd::prelude::*;

use crate::text::string_of;

verus! {

/// Whether position `x` comes before position `y`: a larger key first, and among equal keys the
/// later position first.
pub open spec fn goes_before(keys: Seq<u64>, x: int, y: int) -> bool {
    keys[x] > keys[y] || (keys[x] == keys[y] && x > y)
}

/// `p` lists every position of `keys` exactly once.
pub open spec fn is_permutation(p: Seq<int>, n: int) -> bool {
    &&& p.len() == n
    &&& forall|a: int| 0 <= a < p.len() ==> 0 <= #[trigger] p[a] < n
    &&& forall|a: int, b: int| 0 <= a < b < p.len() ==> p[a] != p[b]
    &&& forall|k: int| 0 <= k < n ==> #[trigger] p.contains(k)
}

/// `p` lists the positions of `keys` largest key first, later positions first among equal keys.
pub open spec fn is_desc_order(keys: Seq<u64>, p: Seq<int>) -> bool {
    &&& is_permutation(p, keys.len() as int)
    &&& forall|a: int, b: int| 0 <= a < b < p.len() ==> goes_before(keys, #[trigger] p[a], #[trigger] p[b])
}

/// The positions of `keys` in the order in which they are shown.
pub open spec fn desc_order(keys: Seq<u64>) -> Seq<int> {
    choose|p: Seq<int>| is_desc_order(keys, p)
}

/// The order is determined by the keys: two orders of the same keys are the same.
pub proof fn lemma_desc_order_unique(keys: Seq<u64>, p: Seq<int>, q: Seq<int>)
    requires
        is_desc_order(keys, p),
        is_desc_order(keys, q),
    ensures
        p == q,
{
    assert forall|a: int| 0 <= a < p.len() implies p[a] == q[a] by {
        lemma_desc_order_agree_upto(keys, p, q, a);
    }
    assert(p =~= q);
}

proof fn lemma_desc_order_agree_upto(keys: Seq<u64>, p: Seq<int>, q: Seq<int>, a: int)
    requires
        is_desc_order(keys, p),
        is_desc_order(keys, q),
        0 <= a < p.len(),
    ensures
        forall|c: int| 0 <= c <= a ==> p[c] == q[c],
    decreases a,
{
    if a > 0 {
        lemma_desc_order_agree_upto(keys, p, q, a - 1);
    }
    let n = keys.len() as int;
    let x = p[a];
    let y = q[a];
    if x != y {
        // y sits in p after position a, and x sits in q after position a
        assert(0 <= y < n);
        assert(p.contains(y));
        assert(q.contains(x));
        let b = choose|b: int| 0 <= b < p.len() && p[b] == y;
        if b < a {
            assert(q[b] == y);
            assert(false);
        }
        assert(b != a);
        assert(goes_before(keys, p[a], p[b]));
        let c = choose|c: int| 0 <= c < q.len() && q[c] == x;
        if c < a {
            assert(p[c] == x);
            assert(false);
        }
        assert(c != a);
        assert(goes_before(keys, q[a], q[c]));
        assert(false);
    }
}

/// The first position of `q` from `a` on whose key is not above `k`, when all keys before `a` are.
proof fn lemma_first_not_above(keys: Seq<u64>, q: Seq<int>, k: u64, a: int) -> (pos: int)
    requires
        0 <= a <= q.len(),
        forall|b: int| 0 <= b < q.len() ==> 0 <= #[trigger] q[b] < keys.len(),
        forall|b: int| 0 <= b < a ==> keys[#[trigger] q[b]] > k,
    ensures
        a <= pos <= q.len(),
        forall|b: int| 0 <= b < pos ==> keys[#[trigger] q[b]] > k,
        pos < q.len() ==> keys[q[pos]] <= k,
    decreases q.len() - a,
{
    if a < q.len() && keys[q[a]] > k {
        lemma_first_not_above(keys, q, k, a + 1)
    } else {
        a
    }
}

/// An order as `desc_order` describes, built by inserting each position after the larger keys.
proof fn lemma_desc_order_witness(keys: Seq<u64>) -> (p: Seq<int>)
    ensures
        is_desc_order(keys, p),
    decreases keys.len(),
{
    if keys.len() == 0 {
        let p = Seq::<int>::empty();
        assert(is_permutation(p, 0));
        p
    } else {
        let n = keys.len() as int;
        let i = n - 1;
        let ks = keys.drop_last();
        let q = lemma_desc_order_witness(ks);
        let k = keys[i];
        assert forall|b: int| 0 <= b < q.len() implies 0 <= #[trigger] q[b] < keys.len() by {}
        assert forall|b: int| 0 <= b < q.len() implies keys[#[trigger] q[b]] == ks[q[b]] by {}
        let pos = lemma_first_not_above(keys, q, k, 0);
        assert forall|b: int| pos <= b < q.len() implies keys[#[trigger] q[b]] <= k by {
            if b > pos {
                assert(goes_before(ks, q[pos], q[b]));
            }
        }
        let np = q.insert(pos, i);
        assert forall|a: int, b: int| 0 <= a < b < np.len() implies goes_before(keys, #[trigger] np[a], #[trigger] np[b]) by {
            if b < pos {
                assert(goes_before(ks, q[a], q[b]));
            } else if b == pos {
                assert(keys[q[a]] > k);
            } else if a < pos {
                assert(goes_before(ks, q[a], q[b - 1]));
            } else if a == pos {
                assert(keys[q[b - 1]] <= k);
                assert(q[b - 1] < i);
            } else {
                assert(goes_before(ks, q[a - 1], q[b - 1]));
            }
        }
        assert forall|a: int, b: int| 0 <= a < b < np.len() implies np[a] != np[b] by {
            if a < pos && b > pos {
                assert(q[a] != q[b - 1]);
            } else if a > pos {
                assert(q[a - 1] != q[b - 1]);
            } else if b < pos {
                assert(q[a] != q[b]);
            }
        }
        assert forall|kk: int| 0 <= kk < n implies #[trigger] np.contains(kk) by {
            if kk == i {
                assert(np[pos] == kk);
            } else {
                assert(q.contains(kk));
                let a = choose|a: int| 0 <= a < q.len() && q[a] == kk;
                if a < pos {
                    assert(np[a] == kk);
                } else {
                    assert(np[a + 1] == kk);
                }
            }
        }
        assert forall|a: int| 0 <= a < np.len() implies 0 <= #[trigger] np[a] < n by {
            if a < pos {
                assert(np[a] == q[a]);
            } else if a > pos {
                assert(np[a] == q[a - 1]);
            }
        }
        np
    }
}

/// Every list of keys has the order that `desc_order` names.
pub proof fn lemma_desc_order_exists(keys: Seq<u64>)
    ensures
        is_desc_order(keys, desc_order(keys)),
{
    let p = lemma_desc_order_witness(keys);
    assert(is_desc_order(keys, p));
}

/// The positions of `keys`, largest key first and later positions first among equal keys: the
/// order of a stable ascending sort by key, reversed.
pub fn order_by_key_desc(keys: &Vec<u64>) -> (p: Vec<usize>)
    ensures
        p@.map_values(|i: usize| i as int) == desc_order(keys@),
        is_desc_order(keys@, desc_order(keys@)),
{
    let mut p: Vec<usize> = Vec::new();
    let mut i: usize = 0;
    while i < keys.len()
        invariant
            i <= keys.len(),
            is_desc_order(keys@.take(i as int), p@.map_values(|i: usize| i as int)),
        decreases keys.len() - i,
    {
        let ghost old_p = p@.map_values(|i: usize| i as int);
        let ghost ks = keys@.take(i + 1);
        let ghost old_ks = keys@.take(i as int);
        let k = keys[i];
        let mut pos: usize = 0;
        assert forall|a: int| 0 <= a < p@.len() implies (#[trigger] p@[a] as int) < i by {
            assert(old_p[a] == p@[a] as int);
        }
        while pos < p.len() && keys[p[pos]] > k
            invariant
                i < keys.len(),
                pos <= p.len(),
                p@.map_values(|i: usize| i as int) == old_p,
                is_desc_order(old_ks, old_p),
                k == keys@[i as int],
                forall|a: int| 0 <= a < p@.len() ==> (#[trigger] p@[a] as int) < i,
                forall|a: int| 0 <= a < pos ==> keys@[#[trigger] old_p[a]] > k,
            decreases p.len() - pos,
        {
            assert(old_p[pos as int] == p@[pos as int] as int);
            pos = pos + 1;
        }
        proof {
            assert(pos < p.len() ==> keys@[old_p[pos as int]] <= k);
            assert forall|a: int| pos <= a < old_p.len() implies keys@[#[trigger] old_p[a]] <= k by {
                if a > pos {
                    assert(goes_before(old_ks, old_p[pos as int], old_p[a]));
                }
            }
        }
        p.insert(pos, i);
        proof {
            let np = p@.map_values(|i: usize| i as int);
            assert(np =~= old_p.insert(pos as int, i as int));
            assert forall|a: int| 0 <= a < old_p.len() implies #[trigger] old_p[a] < i by {}
            assert forall|a: int, b: int| 0 <= a < b < np.len() implies goes_before(
                ks,
                #[trigger] np[a],
                #[trigger] np[b],
            ) by {
                if b < pos {
                    assert(goes_before(old_ks, old_p[a], old_p[b]));
                } else if b == pos {
                    assert(keys@[old_p[a]] > k);
                } else if a < pos {
                    assert(goes_before(old_ks, old_p[a], old_p[b - 1]));
                } else if a == pos {
                    assert(keys@[old_p[b - 1]] <= k);
                    assert(old_p[b - 1] < i);
                } else {
                    assert(goes_before(old_ks, old_p[a - 1], old_p[b - 1]));
                }
            }
            assert forall|a: int, b: int| 0 <= a < b < np.len() implies np[a] != np[b] by {
                if a < pos && b > pos {
                    assert(old_p[a] != old_p[b - 1]);
                } else if a > pos {
                    assert(old_p[a - 1] != old_p[b - 1]);
                } else if b < pos {
                    assert(old_p[a] != old_p[b]);
                }
            }
            assert forall|kk: int| 0 <= kk < i + 1 implies #[trigger] np.contains(kk) by {
                if kk == i {
                    assert(np[pos as int] == kk);
                } else {
                    assert(old_p.contains(kk));
                    let a = choose|a: int| 0 <= a < old_p.len() && old_p[a] == kk;
                    if a < pos {
                        assert(np[a] == kk);
                    } else {
                        assert(np[a + 1] == kk);
                    }
                }
            }
        }
        i = i + 1;
    }
    proof {
        let fp = p@.map_values(|i: usize| i as int);
        assert(keys@.take(keys.len() as int) =~= keys@);
        lemma_desc_order_unique(keys@, fp, desc_order(keys@));
    }
    p
}

} // verus!

verus! {

/// Whether `a` sorts before `b` as strings do: by the first differing character, and a proper
/// prefix first. (UTF-8 keeps the order of code points, so this is the byte order `str` uses.)
pub open spec fn str_lt(a: Seq<char>, b: Seq<char>) -> bool
    decreases a.len(),
{
    if b.len() == 0 {
        false
    } else if a.len() == 0 {
        true
    } else if a[0] != b[0] {
        a[0] < b[0]
    } else {
        str_lt(a.drop_first(), b.drop_first())
    }
}

/// `str_lt` is irreflexive.
pub proof fn lemma_str_lt_irreflexive(a: Seq<char>)
    ensures
        !str_lt(a, a),
    decreases a.len(),
{
    if a.len() > 0 {
        lemma_str_lt_irreflexive(a.drop_first());
    }
}

/// `str_lt` is asymmetric, and total on distinct strings.
pub proof fn lemma_str_lt_total(a: Seq<char>, b: Seq<char>)
    ensures
        str_lt(a, b) ==> !str_lt(b, a),
        a != b ==> str_lt(a, b) || str_lt(b, a),
    decreases a.len(),
{
    if a.len() > 0 && b.len() > 0 {
        lemma_str_lt_total(a.drop_first(), b.drop_first());
        if a[0] == b[0] && a.drop_first() == b.drop_first() {
            assert(a =~= b) by {
                assert forall|k: int| 0 <= k < a.len() implies a[k] == b[k] by {
                    if k > 0 {
                        assert(a[k] == a.drop_first()[k - 1]);
                        assert(b[k] == b.drop_first()[k - 1]);
                    }
                }
            }
        }
    } else if a.len() == 0 && b.len() == 0 {
        assert(a =~= b);
    }
}

/// `str_lt` is transitive.
pub proof fn lemma_str_lt_transitive(a: Seq<char>, b: Seq<char>, c: Seq<char>)
    requires
        str_lt(a, b),
        str_lt(b, c),
    ensures
        str_lt(a, c),
    decreases a.len(),
{
    if a.len() > 0 && b.len() > 0 && c.len() > 0 && a[0] == b[0] && b[0] == c[0] {
        lemma_str_lt_transitive(a.drop_first(), b.drop_first(), c.drop_first());
    }
}

/// Whether `a` sorts before `b`.
pub fn string_lt(a: &Vec<char>, b: &Vec<char>) -> (r: bool)
    ensures
        r == str_lt(a@, b@),
{
    let mut i: usize = 0;
    assert(a@.skip(0) =~= a@);
    assert(b@.skip(0) =~= b@);
    while i < a.len() && i < b.len() && a[i] == b[i]
        invariant
            i <= a.len(),
            i <= b.len(),
            str_lt(a@.skip(i as int), b@.skip(i as int)) == str_lt(a@, b@),
        decreases a.len() - i,
    {
        assert(a@.skip(i as int).drop_first() =~= a@.skip(i + 1));
        assert(b@.skip(i as int).drop_first() =~= b@.skip(i + 1));
        i = i + 1;
    }
    if i == b.len() {
        false
    } else if i == a.len() {
        true
    } else {
        a[i] < b[i]
    }
}

/// `s` is sorted strictly increasing: sorted and without repetitions.
pub open spec fn strictly_sorted(s: Seq<Seq<char>>) -> bool {
    forall|a: int, b: int| 0 <= a < b < s.len() ==> str_lt(#[trigger] s[a], #[trigger] s[b])
}

/// The distinct strings of a set, sorted (as `sort` followed by `dedup` leaves them).
pub open spec fn sorted_distinct(set: Set<Seq<char>>) -> Seq<Seq<char>> {
    choose|s: Seq<Seq<char>>| strictly_sorted(s) && s.to_set() == set
}

/// A set has one strictly sorted listing.
pub proof fn lemma_strictly_sorted_unique(s: Seq<Seq<char>>, t: Seq<Seq<char>>)
    requires
        strictly_sorted(s),
        strictly_sorted(t),
        s.to_set() == t.to_set(),
    ensures
        s == t,
    decreases s.len(),
{
    if s.len() > 0 && t.len() > 0 {
        // the first elements are both the least element of the set
        let x = s[0];
        let y = t[0];
        assert(s.to_set().contains(y)) by {
            assert(t.contains(y));
        }
        assert(t.to_set().contains(x)) by {
            assert(s.contains(x));
        }
        let i = choose|i: int| 0 <= i < s.len() && s[i] == y;
        let j = choose|j: int| 0 <= j < t.len() && t[j] == x;
        lemma_str_lt_total(x, y);
        if x != y {
            if i > 0 {
                assert(str_lt(s[0], s[i]));
            }
            if j > 0 {
                assert(str_lt(t[0], t[j]));
            }
        }
        let s1 = s.drop_first();
        let t1 = t.drop_first();
        assert(s1.to_set() =~= t1.to_set()) by {
            assert forall|e: Seq<char>| s1.to_set().contains(e) implies t1.to_set().contains(e) by {
                assert(s1.contains(e));
                let a = choose|a: int| 0 <= a < s1.len() && s1[a] == e;
                assert(s[a + 1] == e);
                assert(str_lt(s[0], s[a + 1]));
                lemma_str_lt_irreflexive(x);
                assert(t.to_set().contains(e)) by {
                    assert(s.contains(e));
                }
                let b = choose|b: int| 0 <= b < t.len() && t[b] == e;
                assert(b != 0);
                assert(t1[b - 1] == e);
                assert(t1.contains(e));
            }
            assert forall|e: Seq<char>| t1.to_set().contains(e) implies s1.to_set().contains(e) by {
                assert(t1.contains(e));
                let a = choose|a: int| 0 <= a < t1.len() && t1[a] == e;
                assert(t[a + 1] == e);
                assert(str_lt(t[0], t[a + 1]));
                lemma_str_lt_irreflexive(x);
                assert(s.to_set().contains(e)) by {
                    assert(t.contains(e));
                }
                let b = choose|b: int| 0 <= b < s.len() && s[b] == e;
                assert(b != 0);
                assert(s1[b - 1] == e);
                assert(s1.contains(e));
            }
        }
        lemma_strictly_sorted_unique(s1, t1);
        assert(s =~= seq![x] + s1);
        assert(t =~= seq![y] + t1);
    } else if s.len() > 0 {
        assert(s.to_set().contains(s[0])) by {
            assert(s.contains(s[0]));
        }
        assert(t.to_set().contains(s[0]));
        assert(t.contains(s[0]));
    } else if t.len() > 0 {
        assert(t.to_set().contains(t[0])) by {
            assert(t.contains(t[0]));
        }
        assert(s.to_set().contains(t[0]));
        assert(s.contains(t[0]));
    }
}

} // verus!

verus! {

/// The views of a list of strings.
pub open spec fn string_views(v: Seq<String>) -> Seq<Seq<char>> {
    v.map_values(|s: String| s@)
}

/// The distinct strings of `names` in sorted order (`sort` then `dedup`).
pub fn sorted_distinct_strings(names: &Vec<String>) -> (r: Vec<String>)
    ensures
        string_views(r@) == sorted_distinct(string_views(names@).to_set()),
{
    let ghost input = string_views(names@);
    let mut r: Vec<String> = Vec::new();
    let mut i: usize = 0;
    while i < names.len()
        invariant
            i <= names.len(),
            input == string_views(names@),
            strictly_sorted(string_views(r@)),
            string_views(r@).to_set() == input.take(i as int).to_set(),
        decreases names.len() - i,
    {
        let x = crate::text::chars_of(names[i].as_str());
        let ghost rv = string_views(r@);
        // find the first position whose string does not sort before x
        let mut pos: usize = 0;
        while pos < r.len() && string_lt(&crate::text::chars_of(r[pos].as_str()), &x)
            invariant
                pos <= r.len(),
                rv == string_views(r@),
                forall|a: int| 0 <= a < pos ==> str_lt(#[trigger] rv[a], x@),
            decreases r.len() - pos,
        {
            pos = pos + 1;
        }
        let present = pos < r.len() && r[pos] == names[i];
        let ghost t0 = input.take(i as int);
        let ghost t1 = input.take(i + 1);
        let ghost added = t1.to_set();
        assert(t1 =~= t0.push(x@));
        assert(added =~= t0.to_set().insert(x@)) by {
            assert forall|e: Seq<char>| added.contains(e) <==> t0.to_set().insert(x@).contains(e) by {
                if added.contains(e) {
                    assert(t1.contains(e));
                    let k = choose|k: int| 0 <= k < t1.len() && t1[k] == e;
                    if k < i {
                        assert(t0[k] == e);
                        assert(t0.contains(e));
                    }
                }
                if t0.to_set().contains(e) {
                    assert(t0.contains(e));
                    let k = choose|k: int| 0 <= k < t0.len() && t0[k] == e;
                    assert(t1[k] == e);
                    assert(t1.contains(e));
                }
                if e == x@ {
                    assert(t1[i as int] == e);
                    assert(t1.contains(e));
                }
            }
        }
        if present {
            assert(rv[pos as int] == x@);
            assert(rv.contains(x@));
            assert(rv.to_set() =~= rv.to_set().insert(x@));
        } else {
            proof {
                if pos < r.len() {
                    assert(!str_lt(rv[pos as int], x@));
                    lemma_str_lt_total(rv[pos as int], x@);
                }
            }
            r.insert(pos, string_of(&x));
            proof {
                let nv = string_views(r@);
                assert(nv =~= rv.insert(pos as int, x@));
                assert forall|a: int, b: int| 0 <= a < b < nv.len() implies str_lt(#[trigger] nv[a], #[trigger] nv[b]) by {
                    if b < pos {
                    } else if b == pos {
                    } else if a < pos {
                        assert(str_lt(rv[a], rv[b - 1]));
                    } else if a == pos {
                        if b - 1 > pos {
                            assert(str_lt(rv[pos as int], rv[b - 1]));
                            lemma_str_lt_transitive(x@, rv[pos as int], rv[b - 1]);
                        }
                    } else {
                        assert(str_lt(rv[a - 1], rv[b - 1]));
                    }
                }
                assert(nv.to_set() =~= rv.to_set().insert(x@)) by {
                    assert forall|e: Seq<char>| nv.to_set().contains(e) <==> rv.to_set().insert(x@).contains(e) by {
                        if nv.to_set().contains(e) {
                            assert(nv.contains(e));
                            let k = choose|k: int| 0 <= k < nv.len() && nv[k] == e;
                            if k < pos {
                                assert(rv[k] == e);
                                assert(rv.contains(e));
                            } else if k > pos {
                                assert(rv[k - 1] == e);
                                assert(rv.contains(e));
                            }
                        }
                        if rv.to_set().contains(e) {
                            assert(rv.contains(e));
                            let k = choose|k: int| 0 <= k < rv.len() && rv[k] == e;
                            if k < pos {
                                assert(nv[k] == e);
                            } else {
                                assert(nv[k + 1] == e);
                            }
                            assert(nv.contains(e));
                        }
                        if e == x@ {
                            assert(nv[pos as int] == e);
                            assert(nv.contains(e));
                        }
                    }
                }
            }
        }
        i = i + 1;
    }
    assert(input.take(names.len() as int) =~= input);
    proof {
        lemma_strictly_sorted_unique(string_views(r@), sorted_distinct(input.to_set()));
    }
    r
}

} // verus!

verus! {

/// `p` lists the positions `0..n`, each once, so that `before(p[a], p[b])` for every `a < b`.
pub open spec fn is_order_by(p: Seq<int>, n: int, before: spec_fn(int, int) -> bool) -> bool {
    &&& is_permutation(p, n)
    &&& forall|a: int, b: int| 0 <= a < b < p.len() ==> before(#[trigger] p[a], #[trigger] p[b])
}

/// An asymmetric relation allows at most one such listing.
pub proof fn lemma_order_by_unique(p: Seq<int>, q: Seq<int>, n: int, before: spec_fn(int, int) -> bool)
    requires
        is_order_by(p, n, before),
        is_order_by(q, n, before),
        forall|x: int, y: int| 0 <= x < n && 0 <= y < n && #[trigger] before(x, y) ==> !before(y, x),
    ensures
        p == q,
{
    assert forall|a: int| 0 <= a < p.len() implies p[a] == q[a] by {
        lemma_order_by_agree_upto(p, q, n, before, a);
    }
    assert(p =~= q);
}

proof fn lemma_order_by_agree_upto(p: Seq<int>, q: Seq<int>, n: int, before: spec_fn(int, int) -> bool, a: int)
    requires
        is_order_by(p, n, before),
        is_order_by(q, n, before),
        forall|x: int, y: int| 0 <= x < n && 0 <= y < n && #[trigger] before(x, y) ==> !before(y, x),
        0 <= a < p.len(),
    ensures
        forall|c: int| 0 <= c <= a ==> p[c] == q[c],
    decreases a,
{
    if a > 0 {
        lemma_order_by_agree_upto(p, q, n, before, a - 1);
    }
    let x = p[a];
    let y = q[a];
    if x != y {
        assert(p.contains(y));
        assert(q.contains(x));
        let b = choose|b: int| 0 <= b < p.len() && p[b] == y;
        if b < a {
            assert(q[b] == y);
            assert(false);
        }
        assert(b != a);
        assert(before(p[a], p[b]));
        let c = choose|c: int| 0 <= c < q.len() && q[c] == x;
        if c < a {
            assert(p[c] == x);
            assert(false);
        }
        assert(c != a);
        assert(before(q[a], q[c]));
        assert(false);
    }
}

/// The stable ascending order of `keys`: smaller key first, earlier position first among equal
/// keys (`sort_by_key` on the key).
pub open spec fn asc_before(keys: Seq<u64>) -> spec_fn(int, int) -> bool {
    |x: int, y: int| keys[x] < keys[y] || (keys[x] == keys[y] && x < y)
}

/// The positions of `keys` in stable ascending order.
pub open spec fn asc_order(keys: Seq<u64>) -> Seq<int> {
    choose|p: Seq<int>| is_order_by(p, keys.len() as int, asc_before(keys))
}

/// The stable sorted order of `names`: smaller string first, earlier position first among equal
/// strings (`sort_by_key` on the name).
pub open spec fn name_before(names: Seq<Seq<char>>) -> spec_fn(int, int) -> bool {
    |x: int, y: int| str_lt(names[x], names[y]) || (names[x] == names[y] && x < y)
}

/// The positions of `names` in stable sorted order.
pub open spec fn name_order(names: Seq<Seq<char>>) -> Seq<int> {
    choose|p: Seq<int>| is_order_by(p, names.len() as int, name_before(names))
}

/// The positions of `keys`, smaller key first and earlier positions first among equal keys.
pub fn order_by_key_asc(keys: &Vec<u64>) -> (p: Vec<usize>)
    ensures
        p@.map_values(|i: usize| i as int) == asc_order(keys@),
        is_order_by(asc_order(keys@), keys@.len() as int, asc_before(keys@)),
{
    let ghost bf = asc_before(keys@);
    let mut p: Vec<usize> = Vec::new();
    let mut i: usize = 0;
    while i < keys.len()
        invariant
            i <= keys.len(),
            bf == asc_before(keys@),
            is_order_by(p@.map_values(|i: usize| i as int), i as int, bf),
        decreases keys.len() - i,
    {
        let ghost old_p = p@.map_values(|i: usize| i as int);
        let k = keys[i];
        assert forall|a: int| 0 <= a < p@.len() implies (#[trigger] p@[a] as int) < i by {
            assert(old_p[a] == p@[a] as int);
        }
        let mut pos: usize = 0;
        while pos < p.len() && keys[p[pos]] <= k
            invariant
                i < keys.len(),
                pos <= p.len(),
                p@.map_values(|i: usize| i as int) == old_p,
                is_order_by(old_p, i as int, bf),
                bf == asc_before(keys@),
                k == keys@[i as int],
                forall|a: int| 0 <= a < p@.len() ==> (#[trigger] p@[a] as int) < i,
                forall|a: int| 0 <= a < pos ==> keys@[#[trigger] old_p[a]] <= k,
            decreases p.len() - pos,
        {
            assert(old_p[pos as int] == p@[pos as int] as int);
            pos = pos + 1;
        }
        proof {
            assert(pos < p.len() ==> keys@[old_p[pos as int]] > k);
            assert forall|a: int| pos <= a < old_p.len() implies keys@[#[trigger] old_p[a]] > k by {
                if a > pos {
                    assert(bf(old_p[pos as int], old_p[a]));
                }
            }
        }
        p.insert(pos, i);
        proof {
            let np = p@.map_values(|i: usize| i as int);
            assert(np =~= old_p.insert(pos as int, i as int));
            assert forall|a: int| 0 <= a < old_p.len() implies 0 <= #[trigger] old_p[a] < i by {}
            assert forall|a: int, b: int| 0 <= a < b < np.len() implies bf(#[trigger] np[a], #[trigger] np[b]) by {
                if b < pos {
                    assert(bf(old_p[a], old_p[b]));
                } else if b == pos {
                    assert(keys@[old_p[a]] <= k);
                } else if a < pos {
                    assert(bf(old_p[a], old_p[b - 1]));
                } else if a == pos {
                    assert(keys@[old_p[b - 1]] > k);
                } else {
                    assert(bf(old_p[a - 1], old_p[b - 1]));
                }
            }
            assert forall|a: int, b: int| 0 <= a < b < np.len() implies np[a] != np[b] by {
                if a < pos && b > pos {
                    assert(old_p[a] != old_p[b - 1]);
                } else if a > pos {
                    assert(old_p[a - 1] != old_p[b - 1]);
                } else if b < pos {
                    assert(old_p[a] != old_p[b]);
                }
            }
            assert forall|kk: int| 0 <= kk < i + 1 implies #[trigger] np.contains(kk) by {
                if kk == i {
                    assert(np[pos as int] == kk);
                } else {
                    assert(old_p.contains(kk));
                    let a = choose|a: int| 0 <= a < old_p.len() && old_p[a] == kk;
                    if a < pos {
                        assert(np[a] == kk);
                    } else {
                        assert(np[a + 1] == kk);
                    }
                }
            }
        }
        i = i + 1;
    }
    proof {
        let fp = p@.map_values(|i: usize| i as int);
        lemma_order_by_unique(fp, asc_order(keys@), keys@.len() as int, bf);
    }
    p
}

/// The positions of `names` in stable sorted order.
pub fn order_by_name(names: &Vec<String>) -> (p: Vec<usize>)
    ensures
        p@.map_values(|i: usize| i as int) == name_order(string_views(names@)),
        is_order_by(name_order(string_views(names@)), names@.len() as int, name_before(string_views(names@))),
{
    let ghost ks = string_views(names@);
    let ghost bf = name_before(ks);
    let mut p: Vec<usize> = Vec::new();
    let mut i: usize = 0;
    while i < names.len()
        invariant
            i <= names.len(),
            ks == string_views(names@),
            bf == name_before(ks),
            is_order_by(p@.map_values(|i: usize| i as int), i as int, bf),
        decreases names.len() - i,
    {
        let ghost old_p = p@.map_values(|i: usize| i as int);
        let k = crate::text::chars_of(names[i].as_str());
        assert(k@ == ks[i as int]);
        assert forall|a: int| 0 <= a < p@.len() implies (#[trigger] p@[a] as int) < i by {
            assert(old_p[a] == p@[a] as int);
        }
        let mut pos: usize = 0;
        while pos < p.len() && !string_lt(&k, &crate::text::chars_of(names[p[pos]].as_str()))
            invariant
                i < names.len(),
                pos <= p.len(),
                ks == string_views(names@),
                p@.map_values(|i: usize| i as int) == old_p,
                is_order_by(old_p, i as int, bf),
                bf == name_before(ks),
                k@ == ks[i as int],
                forall|a: int| 0 <= a < p@.len() ==> (#[trigger] p@[a] as int) < i,
                forall|a: int| 0 <= a < pos ==> !str_lt(k@, #[trigger] ks[old_p[a]]),
            decreases p.len() - pos,
        {
            assert(old_p[pos as int] == p@[pos as int] as int);
            assert(names@[p@[pos as int] as int]@ == ks[old_p[pos as int]]);
            pos = pos + 1;
        }
        proof {
            if pos < p.len() {
                assert(old_p[pos as int] == p@[pos as int] as int);
                assert(names@[p@[pos as int] as int]@ == ks[old_p[pos as int]]);
            }
            assert forall|a: int| pos <= a < old_p.len() implies str_lt(k@, #[trigger] ks[old_p[a]]) by {
                if a > pos {
                    assert(bf(old_p[pos as int], old_p[a]));
                    if ks[old_p[pos as int]] != ks[old_p[a]] {
                        lemma_str_lt_transitive(k@, ks[old_p[pos as int]], ks[old_p[a]]);
                    }
                }
            }
        }
        p.insert(pos, i);
        proof {
            let np = p@.map_values(|i: usize| i as int);
            assert(np =~= old_p.insert(pos as int, i as int));
            assert forall|a: int| 0 <= a < old_p.len() implies 0 <= #[trigger] old_p[a] < i by {}
            assert forall|a: int, b: int| 0 <= a < b < np.len() implies bf(#[trigger] np[a], #[trigger] np[b]) by {
                if b < pos {
                    assert(bf(old_p[a], old_p[b]));
                } else if b == pos {
                    assert(!str_lt(k@, ks[old_p[a]]));
                    lemma_str_lt_total(k@, ks[old_p[a]]);
                } else if a < pos {
                    assert(bf(old_p[a], old_p[b - 1]));
                } else if a == pos {
                    assert(str_lt(k@, ks[old_p[b - 1]]));
                } else {
                    assert(bf(old_p[a - 1], old_p[b - 1]));
                }
            }
            assert forall|a: int, b: int| 0 <= a < b < np.len() implies np[a] != np[b] by {
                if a < pos && b > pos {
                    assert(old_p[a] != old_p[b - 1]);
                } else if a > pos {
                    assert(old_p[a - 1] != old_p[b - 1]);
                } else if b < pos {
                    assert(old_p[a] != old_p[b]);
                }
            }
            assert forall|kk: int| 0 <= kk < i + 1 implies #[trigger] np.contains(kk) by {
                if kk == i {
                    assert(np[pos as int] == kk);
                } else {
                    assert(old_p.contains(kk));
                    let a = choose|a: int| 0 <= a < old_p.len() && old_p[a] == kk;
                    if a < pos {
                        assert(np[a] == kk);
                    } else {
                        assert(np[a + 1] == kk);
                    }
                }
            }
        }
        i = i + 1;
    }
    proof {
        let fp = p@.map_values(|i: usize| i as int);
        assert forall|x: int, y: int| 0 <= x < names.len() && 0 <= y < names.len() && #[trigger] bf(x, y) implies !bf(y, x) by {
            lemma_str_lt_total(ks[x], ks[y]);
            lemma_str_lt_irreflexive(ks[x]);
        }
        lemma_order_by_unique(fp, name_order(ks), names.len() as int, bf);
    }
    p
}

} // verus!

verus! {

/// Where a path component sorts: the root, then `.`, then `..`, then names.
pub open spec fn component_rank(c: Seq<char>) -> int {
    if c == seq!['/'] {
        0
    } else if c == seq!['.'] {
        1
    } else if c == seq!['.', '.'] {
        2
    } else {
        3
    }
}

/// Whether component `a` sorts before component `b` (as `std::path::Component` orders them):
/// by kind, and names by their text.
pub open spec fn component_lt(a: Seq<char>, b: Seq<char>) -> bool {
    component_rank(a) < component_rank(b) || (component_rank(a) == 3 && component_rank(b) == 3
        && str_lt(a, b))
}

/// Whether the component list `a` sorts before `b`: by the first differing component, and a
/// proper prefix first.
pub open spec fn components_lt(a: Seq<Seq<char>>, b: Seq<Seq<char>>) -> bool
    decreases a.len(),
{
    if b.len() == 0 {
        false
    } else if a.len() == 0 {
        true
    } else if a[0] != b[0] {
        component_lt(a[0], b[0])
    } else {
        components_lt(a.drop_first(), b.drop_first())
    }
}

/// Whether path `a` sorts before path `b` (`Path`'s order): by their components.
pub open spec fn path_lt(a: Seq<char>, b: Seq<char>) -> bool {
    components_lt(crate::paths::components(a), crate::paths::components(b))
}

proof fn lemma_component_lt_order(a: Seq<char>, b: Seq<char>, c: Seq<char>)
    ensures
        !component_lt(a, a),
        component_lt(a, b) ==> !component_lt(b, a),
        a != b ==> component_lt(a, b) || component_lt(b, a),
        component_lt(a, b) && component_lt(b, c) ==> component_lt(a, c),
{
    lemma_str_lt_irreflexive(a);
    lemma_str_lt_total(a, b);
    if component_lt(a, b) && component_lt(b, c) && component_rank(a) == 3 && component_rank(c) == 3 {
        lemma_str_lt_transitive(a, b, c);
    }
}

proof fn lemma_components_lt_irreflexive(a: Seq<Seq<char>>)
    ensures
        !components_lt(a, a),
    decreases a.len(),
{
    if a.len() > 0 {
        lemma_components_lt_irreflexive(a.drop_first());
    }
}

/// The order of component lists is a strict total order.
pub proof fn lemma_components_lt_order(a: Seq<Seq<char>>, b: Seq<Seq<char>>, c: Seq<Seq<char>>)
    ensures
        !components_lt(a, a),
        components_lt(a, b) ==> !components_lt(b, a),
        a != b ==> components_lt(a, b) || components_lt(b, a),
        components_lt(a, b) && components_lt(b, c) ==> components_lt(a, c),
    decreases a.len(),
{
    lemma_components_lt_irreflexive(a);
    if a.len() > 0 && b.len() > 0 {
        lemma_component_lt_order(a[0], b[0], a[0]);
        if c.len() > 0 {
            lemma_component_lt_order(a[0], b[0], c[0]);
            lemma_component_lt_order(b[0], c[0], a[0]);
            lemma_component_lt_order(a[0], c[0], b[0]);
            lemma_components_lt_order(a.drop_first(), b.drop_first(), c.drop_first());
        } else {
            lemma_components_lt_order(a.drop_first(), b.drop_first(), b.drop_first());
        }
        if a[0] == b[0] && a.drop_first() == b.drop_first() {
            assert(a =~= b) by {
                assert forall|k: int| 0 <= k < a.len() implies a[k] == b[k] by {
                    if k > 0 {
                        assert(a[k] == a.drop_first()[k - 1]);
                        assert(b[k] == b.drop_first()[k - 1]);
                    }
                }
            }
        }
    } else if a.len() == 0 && b.len() == 0 {
        assert(a =~= b);
    }
}

/// The stable order of `paths`: by path, earlier position first among paths of equal components
/// (`sort_by_key` on a `PathBuf`).
pub open spec fn path_before(paths: Seq<Seq<char>>) -> spec_fn(int, int) -> bool {
    |x: int, y: int| path_lt(paths[x], paths[y]) || (crate::paths::components(paths[x])
        == crate::paths::components(paths[y]) && x < y)
}

/// The positions of `paths` in stable path order.
pub open spec fn path_order(paths: Seq<Seq<char>>) -> Seq<int> {
    choose|p: Seq<int>| is_order_by(p, paths.len() as int, path_before(paths))
}

/// Whether path `a` sorts before path `b`.
pub fn path_is_less(a: &str, b: &str) -> (r: bool)
    ensures
        r == path_lt(a@, b@),
{
    let ca = crate::paths::path_components(a);
    let cb = crate::paths::path_components(b);
    let ghost va = ca@.map_values(|c: String| c@);
    let ghost vb = cb@.map_values(|c: String| c@);
    let mut i: usize = 0;
    assert(va.skip(0) =~= va);
    assert(vb.skip(0) =~= vb);
    while i < ca.len() && i < cb.len() && ca[i] == cb[i]
        invariant
            i <= ca.len(),
            i <= cb.len(),
            va == ca@.map_values(|c: String| c@),
            vb == cb@.map_values(|c: String| c@),
            components_lt(va.skip(i as int), vb.skip(i as int)) == components_lt(va, vb),
        decreases ca.len() - i,
    {
        assert(va.skip(i as int).drop_first() =~= va.skip(i + 1));
        assert(vb.skip(i as int).drop_first() =~= vb.skip(i + 1));
        assert(va.skip(i as int)[0] == vb.skip(i as int)[0]);
        i = i + 1;
    }
    if i == cb.len() {
        false
    } else if i == ca.len() {
        true
    } else {
        assert(va.skip(i as int)[0] == ca@[i as int]@);
        assert(vb.skip(i as int)[0] == cb@[i as int]@);
        let x = crate::text::chars_of(ca[i].as_str());
        let y = crate::text::chars_of(cb[i].as_str());
        let rx = component_rank_of(&x);
        let ry = component_rank_of(&y);
        rx < ry || (rx == 3 && ry == 3 && string_lt(&x, &y))
    }
}

fn component_rank_of(c: &Vec<char>) -> (r: u8)
    ensures
        r as int == component_rank(c@),
{
    if c.len() == 1 && c[0] == '/' {
        assert(c@ =~= seq!['/']);
        0
    } else if c.len() == 1 && c[0] == '.' {
        assert(c@ =~= seq!['.']);
        1
    } else if c.len() == 2 && c[0] == '.' && c[1] == '.' {
        assert(c@ =~= seq!['.', '.']);
        2
    } else {
        assert(c@ != seq!['/']) by {
            if c@ == seq!['/'] {
                assert(c@.len() == 1);
            }
        }
        assert(c@ != seq!['.']) by {
            if c@ == seq!['.'] {
                assert(c@.len() == 1);
            }
        }
        assert(c@ != seq!['.', '.']) by {
            if c@ == seq!['.', '.'] {
                assert(c@.len() == 2);
            }
        }
        3
    }
}

/// The positions of `paths` in stable path order.
pub fn order_by_path(paths: &Vec<String>) -> (p: Vec<usize>)
    ensures
        p@.map_values(|i: usize| i as int) == path_order(string_views(paths@)),
        is_order_by(path_order(string_views(paths@)), paths@.len() as int, path_before(string_views(paths@))),
{
    let ghost ks = string_views(paths@);
    let ghost bf = path_before(ks);
    let mut p: Vec<usize> = Vec::new();
    let mut i: usize = 0;
    while i < paths.len()
        invariant
            i <= paths.len(),
            ks == string_views(paths@),
            bf == path_before(ks),
            is_order_by(p@.map_values(|i: usize| i as int), i as int, bf),
        decreases paths.len() - i,
    {
        let ghost old_p = p@.map_values(|i: usize| i as int);
        let ghost ki = crate::paths::components(ks[i as int]);
        assert(paths@[i as int]@ == ks[i as int]);
        assert forall|a: int| 0 <= a < p@.len() implies (#[trigger] p@[a] as int) < i by {
            assert(old_p[a] == p@[a] as int);
        }
        let mut pos: usize = 0;
        while pos < p.len() && !path_is_less(paths[i].as_str(), paths[p[pos]].as_str())
            invariant
                i < paths.len(),
                pos <= p.len(),
                ks == string_views(paths@),
                p@.map_values(|i: usize| i as int) == old_p,
                is_order_by(old_p, i as int, bf),
                bf == path_before(ks),
                ki == crate::paths::components(ks[i as int]),
                forall|a: int| 0 <= a < p@.len() ==> (#[trigger] p@[a] as int) < i,
                forall|a: int| 0 <= a < pos ==> !components_lt(ki, crate::paths::components(#[trigger] ks[old_p[a]])),
            decreases p.len() - pos,
        {
            assert(old_p[pos as int] == p@[pos as int] as int);
            assert(paths@[p@[pos as int] as int]@ == ks[old_p[pos as int]]);
            pos = pos + 1;
        }
        proof {
            if pos < p.len() {
                assert(old_p[pos as int] == p@[pos as int] as int);
                assert(paths@[p@[pos as int] as int]@ == ks[old_p[pos as int]]);
            }
            assert forall|a: int| pos <= a < old_p.len() implies components_lt(ki, crate::paths::components(#[trigger] ks[old_p[a]])) by {
                if a > pos {
                    assert(bf(old_p[pos as int], old_p[a]));
                    lemma_components_lt_order(
                        ki,
                        crate::paths::components(ks[old_p[pos as int]]),
                        crate::paths::components(ks[old_p[a]]),
                    );
                }
            }
        }
        p.insert(pos, i);
        proof {
            let np = p@.map_values(|i: usize| i as int);
            assert(np =~= old_p.insert(pos as int, i as int));
            assert forall|a: int| 0 <= a < old_p.len() implies 0 <= #[trigger] old_p[a] < i by {}
            assert forall|a: int, b: int| 0 <= a < b < np.len() implies bf(#[trigger] np[a], #[trigger] np[b]) by {
                if b < pos {
                    assert(bf(old_p[a], old_p[b]));
                } else if b == pos {
                    let ca = crate::paths::components(ks[old_p[a]]);
                    assert(!components_lt(ki, ca));
                    lemma_components_lt_order(ca, ki, ca);
                } else if a < pos {
                    assert(bf(old_p[a], old_p[b - 1]));
                } else if a == pos {
                    assert(components_lt(ki, crate::paths::components(ks[old_p[b - 1]])));
                } else {
                    assert(bf(old_p[a - 1], old_p[b - 1]));
                }
            }
            assert forall|a: int, b: int| 0 <= a < b < np.len() implies np[a] != np[b] by {
                if a < pos && b > pos {
                    assert(old_p[a] != old_p[b - 1]);
                } else if a > pos {
                    assert(old_p[a - 1] != old_p[b - 1]);
                } else if b < pos {
                    assert(old_p[a] != old_p[b]);
                }
            }
            assert forall|kk: int| 0 <= kk < i + 1 implies #[trigger] np.contains(kk) by {
                if kk == i {
                    assert(np[pos as int] == kk);
                } else {
                    assert(old_p.contains(kk));
                    let a = choose|a: int| 0 <= a < old_p.len() && old_p[a] == kk;
                    if a < pos {
                        assert(np[a] == kk);
                    } else {
                        assert(np[a + 1] == kk);
                    }
                }
            }
        }
        i = i + 1;
    }
    proof {
        let fp = p@.map_values(|i: usize| i as int);
        assert forall|x: int, y: int| 0 <= x < paths.len() && 0 <= y < paths.len() && #[trigger] bf(x, y) implies !bf(y, x) by {
            lemma_components_lt_order(crate::paths::components(ks[x]), crate::paths::components(ks[y]), crate::paths::components(ks[x]));
        }
        lemma_order_by_unique(fp, path_order(ks), paths.len() as int, bf);
    }
    p
}

} // verus!
