//! Deciding what to remove from the cache, and what to say about it.
use vstd::prelude::*;

use crate::human::{decimal_file_size, human_size};
use crate::library::{
    components_from_groups, components_of, opt_str_view, Component, Error,
    RemoveDirArgs,
};
use crate::order::{sorted_distinct, sorted_distinct_strings, string_views};
use crate::paths::{
    components, file_name, is_kept_piece, kept_pieces, lemma_split_on_nonempty, path_file_name, split_chars, split_on,
};
use crate::text::{chars_of, join_strings, join_with, push_str, string_of};

verus! {

/// Whether `c` is a number character: one of the Unicode general categories Nd, Nl and No.
pub uninterp spec fn is_numeric_char(c: char) -> bool;

/// `char::is_numeric`. The standard library documents it as true exactly for the characters of
/// the general categories for numbers; the contract names that result, and states what the
/// documentation gives of ASCII: there the number characters are the digits `0` to `9`.
#[verifier::external_body]
fn char_is_numeric(c: char) -> (r: bool)
    ensures
        r == is_numeric_char(c),
        (c as u32) < 128 ==> (r <==> ('0' <= c && c <= '9')),
{
    c.is_numeric()
}

/// Whether `c` counts as a number (`char::is_numeric`): among ASCII exactly the digits `0` to
/// `9`, beyond ASCII the number characters of Unicode.
pub open spec fn numeric_char(c: char) -> bool {
    if (c as u32) < 128 {
        '0' <= c && c <= '9'
    } else {
        is_numeric_char(c)
    }
}

/// The file stem of a file name (`Path::file_stem`): the name up to its last `.`, or the whole
/// name when it holds no `.` or its only `.` leads.
pub open spec fn stem_of(name: Seq<char>) -> Seq<char>
    decreases name.len(),
{
    stem_from(name, name.len() as int)
}

/// `stem_of` looking for the last `.` among the first `k` characters.
pub open spec fn stem_from(name: Seq<char>, k: int) -> Seq<char>
    decreases k,
{
    if k <= 0 {
        name
    } else if name[k - 1] == '.' {
        if k - 1 == 0 {
            name
        } else {
            name.take(k - 1)
        }
    } else {
        stem_from(name, k - 1)
    }
}

/// The pieces that are not empty, in order.
pub open spec fn nonempty_pieces(ps: Seq<Seq<char>>) -> Seq<Seq<char>>
    decreases ps.len(),
{
    if ps.len() == 0 {
        seq![]
    } else if ps.last().len() > 0 {
        nonempty_pieces(ps.drop_last()).push(ps.last())
    } else {
        nonempty_pieces(ps.drop_last())
    }
}

/// The position of the first piece that starts with a number character, or the number of
/// pieces when none does.
pub open spec fn first_numeric(ps: Seq<Seq<char>>) -> int
    decreases ps.len(),
{
    if ps.len() == 0 {
        0
    } else if ps[0].len() > 0 && numeric_char(ps[0][0]) {
        0
    } else {
        1 + first_numeric(ps.drop_first())
    }
}

/// The name and version of a package file `<name>-<version>.<ext>`: its stem split at `-`, the
/// pieces before the first one that starts with a number form the name, that one and the rest
/// form the version (empty pieces are dropped, the others joined by `-`).
pub open spec fn name_and_version(path: Seq<char>) -> (Seq<char>, Seq<char>) {
    let pieces = split_on(stem_of(file_name(path)->0), '-');
    let k = first_numeric(pieces);
    (
        join_with(nonempty_pieces(pieces.take(k)), "-"@),
        join_with(nonempty_pieces(pieces.skip(k)), "-"@),
    )
}

proof fn lemma_first_numeric_bounds(ps: Seq<Seq<char>>)
    ensures
        0 <= first_numeric(ps) <= ps.len(),
        forall|j: int| 0 <= j < first_numeric(ps) ==> !(ps[j].len() > 0 && numeric_char(#[trigger] ps[j][0])),
        first_numeric(ps) < ps.len() ==> ps[first_numeric(ps)].len() > 0 && numeric_char(ps[first_numeric(ps)][0]),
    decreases ps.len(),
{
    if ps.len() > 0 && !(ps[0].len() > 0 && numeric_char(ps[0][0])) {
        lemma_first_numeric_bounds(ps.drop_first());
        assert forall|j: int| 0 <= j < first_numeric(ps) implies !(ps[j].len() > 0 && numeric_char(#[trigger] ps[j][0])) by {
            if j > 0 {
                assert(ps[j] == ps.drop_first()[j - 1]);
            }
        }
    }
}

/// The stem of a file name.
pub fn file_stem_of(name: &Vec<char>) -> (r: Vec<char>)
    ensures
        r@ == stem_of(name@),
{
    let mut k: usize = name.len();
    while k > 0 && name[k - 1] != '.'
        invariant
            k <= name.len(),
            stem_from(name@, k as int) == stem_of(name@),
        decreases k,
    {
        k = k - 1;
    }
    if k <= 1 {
        let mut r: Vec<char> = Vec::new();
        let mut i: usize = 0;
        while i < name.len()
            invariant
                i <= name.len(),
                r@ == name@.take(i as int),
            decreases name.len() - i,
        {
            r.push(name[i]);
            i = i + 1;
            assert(r@ =~= name@.take(i as int));
        }
        assert(name@.take(name.len() as int) =~= name@);
        r
    } else {
        let mut r: Vec<char> = Vec::new();
        let mut i: usize = 0;
        while i < k - 1
            invariant
                2 <= k <= name.len(),
                i <= k - 1,
                r@ == name@.take(i as int),
            decreases k - 1 - i,
        {
            r.push(name[i]);
            i = i + 1;
            assert(r@ =~= name@.take(i as int));
        }
        r
    }
}

/// Splits the file name of a package file into its crate name and version, both joined from the
/// pieces of the file stem split at `-`: the name from those before the first piece that starts
/// with a number, the version from that piece on. A path without a file name is a malformed
/// package name.
pub fn parse_version(path: &str) -> (r: Result<(String, String), Error>)
    ensures
        match r {
            Ok((name, version)) => file_name(path@) is Some && (name@, version@) == name_and_version(path@),
            Err(Error::MalformedPackageName(p)) => file_name(path@) is None && p@ == path@,
            Err(_) => false,
        },
{
    let file = match path_file_name(path) {
        Some(f) => f,
        None => {
            let mut p = String::new();
            push_str(&mut p, path);
            return Err(Error::MalformedPackageName(p));
        },
    };
    let fc = chars_of(file.as_str());
    let stem = file_stem_of(&fc);
    let pieces = split_chars(&stem, '-');
    let ghost ps = pieces@.map_values(|p: Vec<char>| p@);
    proof {
        lemma_first_numeric_bounds(ps);
    }
    let ghost k = first_numeric(ps);
    let mut name: Vec<String> = Vec::new();
    let mut version: Vec<String> = Vec::new();
    let mut found_version = false;
    let mut i: usize = 0;
    while i < pieces.len()
        invariant
            i <= pieces.len(),
            ps == pieces@.map_values(|p: Vec<char>| p@),
            0 <= k <= ps.len(),
            forall|j: int| 0 <= j < k ==> !(ps[j].len() > 0 && numeric_char(#[trigger] ps[j][0])),
            k < ps.len() ==> ps[k].len() > 0 && numeric_char(ps[k][0]),
            found_version == (i > k),
            string_views(name@) == nonempty_pieces(ps.take(if i < k { i as int } else { k })),
            string_views(version@) == (if i > k {
                nonempty_pieces(ps.subrange(k, i as int))
            } else {
                Seq::<Seq<char>>::empty()
            }),
        decreases pieces.len() - i,
    {
        let seg = &pieces[i];
        assert(seg@ == ps[i as int]);
        if seg.len() > 0 {
            let first = seg[0];
            let numeric = char_is_numeric(first);
            if numeric {
                assert(i >= k);
            }
            if numeric || found_version {
                let ghost before = string_views(version@);
                version.push(string_of(seg));
                proof {
                    if i == k {
                        assert(ps.subrange(k, i + 1) =~= seq![ps[i as int]]);
                        assert(seq![ps[i as int]].drop_last() =~= Seq::<Seq<char>>::empty());
                        assert(before.len() == 0);
                        assert(string_views(version@) =~= seq![seg@]);
                        assert(ps[i as int].len() > 0);
                        assert(seq![ps[i as int]].last() == ps[i as int]);
                        assert(nonempty_pieces(Seq::<Seq<char>>::empty()) =~= Seq::<Seq<char>>::empty());
                        assert(nonempty_pieces(seq![ps[i as int]]) =~= seq![ps[i as int]]);
                        assert(string_views(version@) =~= nonempty_pieces(ps.subrange(k, i + 1)));
                    } else {
                        assert(ps.subrange(k, i + 1).drop_last() =~= ps.subrange(k, i as int));
                        assert(string_views(version@) =~= before.push(seg@));
                    }
                }
                found_version = true;
            } else {
                let ghost before = string_views(name@);
                name.push(string_of(seg));
                proof {
                    assert(ps.take(i + 1).drop_last() =~= ps.take(i as int));
                    assert(string_views(name@) =~= before.push(seg@));
                }
            }
        } else {
            proof {
                if i < k {
                    assert(ps.take(i + 1).drop_last() =~= ps.take(i as int));
                } else if i > k {
                    assert(ps.subrange(k, i + 1).drop_last() =~= ps.subrange(k, i as int));
                }
            }
        }
        i = i + 1;
    }
    proof {
        if k == ps.len() {
            assert(ps.skip(k) =~= Seq::<Seq<char>>::empty());
            assert(ps.take(k) =~= ps.take(if i < k { i as int } else { k }));
        } else {
            assert(ps.skip(k) =~= ps.subrange(k, ps.len() as int));
        }
    }
    let n = join_strings(&name, "-");
    let v = join_strings(&version, "-");
    proof {
        reveal_strlit("-");
    }
    Ok((n, v))
}

} // verus!

verus! {

/// Splitting `a`, the separator and `b` gives the pieces of `a` followed by those of `b`.
proof fn lemma_split_concat(a: Seq<char>, b: Seq<char>, sep: char)
    ensures
        split_on(a + seq![sep] + b, sep) == split_on(a, sep) + split_on(b, sep),
    decreases b.len(),
{
    let s = a + seq![sep] + b;
    if b.len() == 0 {
        assert(s.drop_last() =~= a);
        assert(split_on(s, sep) =~= split_on(a, sep) + split_on(b, sep));
    } else {
        let b2 = b.drop_last();
        assert(s.drop_last() =~= a + seq![sep] + b2);
        lemma_split_concat(a, b2, sep);
        lemma_split_on_nonempty(b2, sep);
        let x = split_on(a, sep);
        let y = split_on(b2, sep);
        if b.last() == sep {
            assert(split_on(s, sep) =~= x + split_on(b, sep));
        } else {
            assert((x + y).update((x + y).len() - 1, (x + y).last().push(b.last())) =~= x + y.update(
                y.len() - 1,
                y.last().push(b.last()),
            ));
            assert(split_on(s, sep) =~= x + split_on(b, sep));
        }
    }
}

/// Text without the separator is a single piece.
proof fn lemma_split_without_sep(s: Seq<char>, sep: char)
    requires
        !s.contains(sep),
    ensures
        split_on(s, sep) == seq![s],
    decreases s.len(),
{
    if s.len() > 0 {
        assert(!s.drop_last().contains(sep)) by {
            if s.drop_last().contains(sep) {
                let i = choose|i: int| 0 <= i < s.drop_last().len() && s.drop_last()[i] == sep;
                assert(s[i] == sep);
            }
        }
        lemma_split_without_sep(s.drop_last(), sep);
        assert(s.last() != sep) by {
            assert(s[s.len() - 1] == s.last());
        }
        let rest = split_on(s.drop_last(), sep);
        assert(rest.last() == s.drop_last());
        assert(split_on(s, sep) == rest.update(0, s.drop_last().push(s.last())));
        assert(s.drop_last().push(s.last()) =~= s);
        assert(seq![s.drop_last()].update(0, s) =~= seq![s]);
    } else {
        assert(s =~= Seq::<char>::empty());
    }
}

/// Joining the pieces of `s` with the separator gives `s` back.
proof fn lemma_join_split(s: Seq<char>, sep: char)
    ensures
        join_with(split_on(s, sep), seq![sep]) == s,
    decreases s.len(),
{
    if s.len() == 0 {
        assert(join_with(seq![seq![]], seq![sep]) == Seq::<char>::empty());
    } else {
        let t = s.drop_last();
        lemma_join_split(t, sep);
        lemma_split_on_nonempty(t, sep);
        let rest = split_on(t, sep);
        if s.last() == sep {
            let ps = rest.push(seq![]);
            assert(ps.drop_last() =~= rest);
            assert(join_with(ps, seq![sep]) =~= s);
        } else {
            let ps = rest.update(rest.len() - 1, rest.last().push(s.last()));
            if rest.len() == 1 {
                assert(rest[0] == t);
                assert(ps[0] == t.push(s.last()));
                assert(t.push(s.last()) =~= s);
                assert(join_with(ps, seq![sep]) == ps[0]);
            } else {
                assert(ps.drop_last() =~= rest.drop_last());
                assert(ps.last() == rest.last().push(s.last()));
                assert(join_with(rest, seq![sep]) == join_with(rest.drop_last(), seq![sep]) + seq![sep] + rest.last());
                assert(join_with(ps, seq![sep]) == join_with(rest.drop_last(), seq![sep]) + seq![sep] + rest.last().push(s.last()));
                assert(t.push(s.last()) =~= s);
                assert(join_with(ps, seq![sep]) =~= s);
            }
        }
    }
}

/// Pieces that are all non-empty are kept as they are.
proof fn lemma_nonempty_pieces_all(ps: Seq<Seq<char>>)
    requires
        forall|i: int| 0 <= i < ps.len() ==> (#[trigger] ps[i]).len() > 0,
    ensures
        nonempty_pieces(ps) == ps,
    decreases ps.len(),
{
    if ps.len() > 0 {
        lemma_nonempty_pieces_all(ps.drop_last());
        assert(ps.last() == ps[ps.len() - 1]);
        assert(ps.drop_last().push(ps.last()) =~= ps);
    }
}

/// Before pieces that start with no number and a piece that starts with one, the first numeric
/// piece is the one after them.
proof fn lemma_first_numeric_concat(a: Seq<Seq<char>>, b: Seq<Seq<char>>)
    requires
        forall|i: int| 0 <= i < a.len() ==> !((#[trigger] a[i]).len() > 0 && numeric_char(a[i][0])),
        b.len() > 0,
        b[0].len() > 0 && numeric_char(b[0][0]),
    ensures
        first_numeric(a + b) == a.len(),
    decreases a.len(),
{
    if a.len() == 0 {
        assert(a + b =~= b);
    } else {
        assert((a + b).drop_first() =~= a.drop_first() + b);
        assert forall|i: int| 0 <= i < a.drop_first().len() implies !((#[trigger] a.drop_first()[i]).len() > 0
            && numeric_char(a.drop_first()[i][0])) by {
            assert(a.drop_first()[i] == a[i + 1]);
        }
        lemma_first_numeric_concat(a.drop_first(), b);
        assert((a + b)[0] == a[0]);
    }
}

/// The stem of `t.crate` is `t` when `t` is not empty.
proof fn lemma_stem_of_crate(t: Seq<char>)
    requires
        t.len() > 0,
    ensures
        stem_of(t + ".crate"@) == t,
{
    reveal_strlit(".crate");
    let s = t + ".crate"@;
    let n = s.len() as int;
    assert(s[n - 1] == 'e' && s[n - 2] == 't' && s[n - 3] == 'a' && s[n - 4] == 'r' && s[n - 5] == 'c');
    assert(s[n - 6] == '.');
    assert(stem_from(s, n - 5) == s.take(n - 6));
    assert(stem_from(s, n - 4) == stem_from(s, n - 5));
    assert(stem_from(s, n - 3) == stem_from(s, n - 4));
    assert(stem_from(s, n - 2) == stem_from(s, n - 3));
    assert(stem_from(s, n - 1) == stem_from(s, n - 2));
    assert(stem_from(s, n) == stem_from(s, n - 1));
    assert(s.take(n - 6) =~= t);
}

/// The name and version come back from the package file they name: for a crate name whose
/// pieces between `-` are not empty and do not start with a number, and a version whose pieces
/// are not empty and whose first piece starts with a number, neither holding a `/`, the file
/// `<name>-<version>.crate` reads as that name and version. By the contract of `parse_version`,
/// that function returns `Ok` of exactly this name and version for such a file.
pub proof fn lemma_name_and_version_round_trip(name: Seq<char>, version: Seq<char>)
    requires
        forall|i: int| 0 <= i < split_on(name, '-').len() ==> (#[trigger] split_on(name, '-')[i]).len() > 0
            && !numeric_char(split_on(name, '-')[i][0]),
        forall|i: int| 0 <= i < split_on(version, '-').len() ==> (#[trigger] split_on(version, '-')[i]).len() > 0,
        numeric_char(split_on(version, '-')[0][0]),
        !name.contains('/'),
        !version.contains('/'),
    ensures
        file_name(name + "-"@ + version + ".crate"@) is Some,
        name_and_version(name + "-"@ + version + ".crate"@) == (name, version),
{
    reveal_strlit("-");
    reveal_strlit(".crate");
    let stem = name + "-"@ + version;
    let p = stem + ".crate"@;
    let a = split_on(name, '-');
    let b = split_on(version, '-');
    lemma_split_on_nonempty(name, '-');
    lemma_split_on_nonempty(version, '-');
    assert(a[0].len() > 0);
    assert(name.len() > 0) by {
        if name.len() == 0 {
            assert(split_on(name, '-') =~= seq![seq![]]);
        }
    }
    // the path is a single component, its own file name
    assert(!p.contains('/')) by {
        if p.contains('/') {
            let i = choose|i: int| 0 <= i < p.len() && p[i] == '/';
            if i < name.len() {
                assert(name[i] == '/');
            } else if i == name.len() {
            } else if i < name.len() + 1 + version.len() {
                assert(version[i - name.len() - 1] == '/');
            } else {
                assert(".crate"@[i - name.len() - 1 - version.len()] == '/');
            }
        }
    }
    lemma_split_without_sep(p, '/');
    assert(p.len() > 2);
    assert(p[0] != '/') by {
        assert(p[0] == name[0]);
        assert(name[0] != '/') by {
            if name[0] == '/' {
                assert(name.contains('/'));
            }
        }
    }
    assert(p != seq!['.']);
    assert(p != seq!['.', '.']);
    assert(p != seq!['/']);
    assert(kept_pieces(seq![p]) =~= seq![p]) by {
        assert(seq![p].drop_last() =~= Seq::<Seq<char>>::empty());
        assert(seq![p].last() == p);
        assert(is_kept_piece(p));
        assert(kept_pieces(Seq::<Seq<char>>::empty()) == Seq::<Seq<char>>::empty());
        assert(Seq::<Seq<char>>::empty().push(p) =~= seq![p]);
    }
    assert(components(p) =~= seq![p]);
    assert(file_name(p) == Some(p));
    // the stem drops `.crate`
    lemma_stem_of_crate(stem);
    // the stem splits into the pieces of the name and of the version
    lemma_split_concat(name, version, '-');
    assert(stem =~= name + seq!['-'] + version);
    let ps = split_on(stem, '-');
    assert(ps == a + b);
    assert(b[0].len() > 0);
    lemma_first_numeric_concat(a, b);
    assert(ps.take(a.len() as int) =~= a);
    assert(ps.skip(a.len() as int) =~= b);
    lemma_nonempty_pieces_all(a);
    lemma_nonempty_pieces_all(b);
    lemma_join_split(name, '-');
    lemma_join_split(version, '-');
    assert("-"@ =~= seq!['-']);
}

} // verus!

verus! {

/// A version of a crate in the cache: its path, crate name and version.
pub struct CrateVersion {
    pub path: String,
    pub name: String,
    pub version: String,
}

/// The mathematical content of a `CrateVersion`.
pub struct CrateVersionView {
    pub path: Seq<char>,
    pub name: Seq<char>,
    pub version: Seq<char>,
}

impl View for CrateVersion {
    type V = CrateVersionView;

    open spec fn view(&self) -> CrateVersionView {
        CrateVersionView { path: self.path@, name: self.name@, version: self.version@ }
    }
}

/// The entries of a registry source directory as paths, in reverse sorted order (each name once).
pub open spec fn newest_first(repo: Seq<char>, entries: Seq<Seq<char>>) -> Seq<Seq<char>> {
    let asc = sorted_distinct(entries.to_set());
    Seq::new(asc.len(), |m: int| crate::paths::path_join(repo, asc[asc.len() - 1 - m]))
}

/// How many entries right before position `k` belong to the same crate as the one at `k`: the
/// number of newer versions of that crate listed before it.
pub open spec fn newer_versions(names: Seq<Seq<char>>, k: int) -> nat
    decreases k,
{
    if k <= 0 {
        0
    } else if names[k] == names[k - 1] {
        newer_versions(names, k - 1) + 1
    } else {
        0
    }
}

/// How many of `paths` parse as package files: the position of the first one without a file
/// name, or all of them.
pub open spec fn parsable_prefix(paths: Seq<Seq<char>>) -> int
    decreases paths.len(),
{
    if paths.len() == 0 {
        0
    } else if file_name(paths[0]) is None {
        0
    } else {
        1 + parsable_prefix(paths.drop_first())
    }
}

/// The crate names of the first `n` paths.
pub open spec fn crate_names(paths: Seq<Seq<char>>, n: int) -> Seq<Seq<char>> {
    Seq::new(n as nat, |k: int| name_and_version(paths[k]).0)
}

/// The versions among the first `n` paths that are removed when `amount_to_keep` versions of
/// each crate are kept: those with at least `amount_to_keep` newer versions of the same crate
/// before them.
pub open spec fn removed_versions(paths: Seq<Seq<char>>, amount_to_keep: u64, n: int) -> Seq<CrateVersionView>
    decreases n,
{
    if n <= 0 {
        seq![]
    } else {
        let k = n - 1;
        let before = removed_versions(paths, amount_to_keep, k);
        let (name, version) = name_and_version(paths[k]);
        if newer_versions(crate_names(paths, n), k) >= amount_to_keep {
            before.push(CrateVersionView { path: paths[k], name, version })
        } else {
            before
        }
    }
}

/// An entry has at least `m` newer versions before it exactly when it is preceded by `m` entries
/// that all carry its own crate name: only entries with equal names count as versions of one
/// crate.
pub proof fn lemma_newer_versions_are_namesakes(names: Seq<Seq<char>>, k: int, m: nat)
    requires
        0 <= k < names.len(),
    ensures
        newer_versions(names, k) >= m <==> (m <= k && forall|j: int| k - m <= j <= k ==> #[trigger] names[j]
            == names[k]),
    decreases k,
{
    if m > 0 && k > 0 {
        lemma_newer_versions_are_namesakes(names, k - 1, (m - 1) as nat);
        if names[k] == names[k - 1] {
            if m <= k && forall|j: int| k - m <= j <= k ==> #[trigger] names[j] == names[k] {
                assert forall|j: int| (k - 1) - (m - 1) <= j <= k - 1 implies #[trigger] names[j] == names[k - 1] by {
                    assert(names[j] == names[k]);
                }
            }
            if newer_versions(names, k - 1) >= m - 1 {
                assert forall|j: int| k - m <= j <= k implies #[trigger] names[j] == names[k] by {
                    if j < k {
                        assert(names[j] == names[k - 1]);
                    }
                }
            }
        } else {
            assert(!(forall|j: int| k - m <= j <= k ==> #[trigger] names[j] == names[k])) by {
                assert(names[k - 1] != names[k]);
            }
        }
    } else if m > 0 {
        assert(newer_versions(names, k) == 0);
    } else {
        assert forall|j: int| k - m <= j <= k implies #[trigger] names[j] == names[k] by {
            assert(j == k);
        }
    }
}

/// The entry at position `k` of `paths` is preceded by `m` entries that are versions of the same
/// crate: the entries from `k - m` to `k` all carry one crate name.
pub open spec fn has_newer_namesakes(paths: Seq<Seq<char>>, m: u64, k: int) -> bool {
    &&& m <= k
    &&& forall|j: int| k - m <= j <= k ==> (#[trigger] name_and_version(paths[j]).0) == name_and_version(paths[k]).0
}

proof fn lemma_namesakes_by_name(paths: Seq<Seq<char>>, m: u64, n: int, k: int)
    requires
        0 <= k < n <= paths.len(),
    ensures
        newer_versions(crate_names(paths, n), k) >= m <==> has_newer_namesakes(paths, m, k),
{
    let names = crate_names(paths, n);
    lemma_newer_versions_are_namesakes(names, k, m as nat);
    if m <= k {
        if has_newer_namesakes(paths, m, k) {
            assert forall|j: int| k - m <= j <= k implies #[trigger] names[j] == names[k] by {
                assert(name_and_version(paths[j]).0 == name_and_version(paths[k]).0);
            }
        }
        if forall|j: int| k - m <= j <= k ==> #[trigger] names[j] == names[k] {
            assert forall|j: int| k - m <= j <= k implies (#[trigger] name_and_version(paths[j]).0)
                == name_and_version(paths[k]).0 by {
                assert(names[j] == names[k]);
            }
        }
    }
}

/// A version is removed when keeping `amount_to_keep` versions exactly when the `amount_to_keep`
/// entries listed right before it (the newer ones) are versions of the same crate: every removed
/// version is such an entry, and every such entry is removed.
pub proof fn lemma_removed_versions_have_newer_namesakes(paths: Seq<Seq<char>>, amount_to_keep: u64, n: int)
    requires
        0 <= n <= paths.len(),
    ensures
        forall|x: int| 0 <= x < removed_versions(paths, amount_to_keep, n).len() ==> exists|k: int|
            0 <= k < n && (#[trigger] removed_versions(paths, amount_to_keep, n)[x]).path == paths[k]
                && has_newer_namesakes(paths, amount_to_keep, k),
        forall|k: int|
            0 <= k < n && #[trigger] has_newer_namesakes(paths, amount_to_keep, k) ==> exists|x: int|
                0 <= x < removed_versions(paths, amount_to_keep, n).len() && (#[trigger] removed_versions(
                    paths,
                    amount_to_keep,
                    n,
                )[x]).path == paths[k],
    decreases n,
{
    if n > 0 {
        let k = n - 1;
        let before = removed_versions(paths, amount_to_keep, k);
        let all = removed_versions(paths, amount_to_keep, n);
        lemma_removed_versions_have_newer_namesakes(paths, amount_to_keep, k);
        lemma_namesakes_by_name(paths, amount_to_keep, n, k);
        assert forall|x: int| 0 <= x < all.len() implies exists|kk: int|
            0 <= kk < n && (#[trigger] all[x]).path == paths[kk] && has_newer_namesakes(paths, amount_to_keep, kk) by {
            if x < before.len() {
                assert(all[x] == before[x]);
            } else {
                assert(all[x].path == paths[k]);
            }
        }
        assert forall|kk: int| 0 <= kk < n && #[trigger] has_newer_namesakes(paths, amount_to_keep, kk) implies exists|x: int|
            0 <= x < all.len() && (#[trigger] all[x]).path == paths[kk] by {
            if kk < k {
                let x = choose|x: int| 0 <= x < before.len() && (#[trigger] before[x]).path == paths[kk];
                assert(all[x] == before[x]);
            } else {
                assert(all[before.len() as int].path == paths[k]);
            }
        }
    }
}

/// What removing old versions from one registry source directory decides: the versions to remove
/// in the order in which they are removed, and the error that stops it when an entry does not
/// parse.
pub open spec fn old_crates_plan(repo: Seq<char>, entries: Seq<Seq<char>>, amount_to_keep: u64) -> (Seq<CrateVersionView>, bool) {
    let paths = newest_first(repo, entries);
    let n = parsable_prefix(paths);
    (removed_versions(paths, amount_to_keep, n), n < paths.len())
}

proof fn lemma_parsable_prefix(paths: Seq<Seq<char>>)
    ensures
        0 <= parsable_prefix(paths) <= paths.len(),
        forall|j: int| 0 <= j < parsable_prefix(paths) ==> file_name(#[trigger] paths[j]) is Some,
        parsable_prefix(paths) < paths.len() ==> file_name(paths[parsable_prefix(paths)]) is None,
    decreases paths.len(),
{
    if paths.len() > 0 && file_name(paths[0]) is Some {
        lemma_parsable_prefix(paths.drop_first());
        assert forall|j: int| 0 <= j < parsable_prefix(paths) implies file_name(#[trigger] paths[j]) is Some by {
            if j > 0 {
                assert(paths[j] == paths.drop_first()[j - 1]);
            }
        }
        if parsable_prefix(paths) < paths.len() {
            assert(paths[parsable_prefix(paths)] == paths.drop_first()[parsable_prefix(paths) - 1]);
        }
    }
}

/// Of one registry source directory holding `entries`, the versions to remove so that at most
/// `amount_to_keep` versions of each crate stay (all of them for `0`): entries are taken in
/// reverse sorted order, and a version goes when at least `amount_to_keep` newer versions of its
/// crate come before it. An entry that does not parse stops the work with an error; the versions
/// decided before it are still returned.
pub fn rm_old_crates(amount_to_keep: u64, registry_src_path: &str, entries: &Vec<String>) -> (r: (Vec<CrateVersion>, Option<Error>))
    ensures
        r.0@.map_values(|c: CrateVersion| c@) == old_crates_plan(registry_src_path@, string_views(entries@), amount_to_keep).0,
        match r.1 {
            None => !old_crates_plan(registry_src_path@, string_views(entries@), amount_to_keep).1,
            Some(Error::MalformedPackageName(_)) => old_crates_plan(registry_src_path@, string_views(entries@), amount_to_keep).1,
            Some(_) => false,
        },
{
    let sorted = sorted_distinct_strings(entries);
    let ghost asc = string_views(sorted@);
    let ghost paths = newest_first(registry_src_path@, string_views(entries@));
    let mut crate_list: Vec<String> = Vec::new();
    let mut i: usize = sorted.len();
    while i > 0
        invariant
            i <= sorted.len(),
            asc == string_views(sorted@),
            asc == sorted_distinct(string_views(entries@).to_set()),
            paths == newest_first(registry_src_path@, string_views(entries@)),
            string_views(crate_list@) == paths.take(sorted.len() - i),
        decreases i,
    {
        i = i - 1;
        let p = crate::paths::join_path(registry_src_path, sorted[i].as_str());
        let ghost before = string_views(crate_list@);
        crate_list.push(p);
        assert(string_views(crate_list@) =~= before.push(p@));
        assert(paths.take(sorted.len() - i) =~= paths.take(sorted.len() - i - 1).push(paths[sorted.len() - 1 - i]));
        assert(paths.len() == asc.len());
        assert(paths[sorted.len() - 1 - i] == crate::paths::path_join(registry_src_path@, asc[i as int]));
        assert(string_views(crate_list@) =~= paths.take(sorted.len() - i));
    }
    assert(paths.take(sorted.len() as int) =~= paths);
    proof {
        lemma_parsable_prefix(paths);
    }
    let ghost n = parsable_prefix(paths);
    let mut remove: Vec<CrateVersion> = Vec::new();
    let mut last_name = String::new();
    let mut newer: u64 = 0;
    let mut k: usize = 0;
    while k < crate_list.len()
        invariant
            k <= crate_list.len(),
            string_views(crate_list@) == paths,
            paths == newest_first(registry_src_path@, string_views(entries@)),
            n == parsable_prefix(paths),
            0 <= n <= paths.len(),
            forall|j: int| 0 <= j < n ==> file_name(#[trigger] paths[j]) is Some,
            n < paths.len() ==> file_name(paths[n]) is None,
            k <= n,
            remove@.map_values(|c: CrateVersion| c@) == removed_versions(paths, amount_to_keep, k as int),
            k > 0 ==> last_name@ == crate_names(paths, n)[k - 1],
            k > 0 ==> newer == newer_versions(crate_names(paths, n), k - 1),
            newer <= k,
        decreases crate_list.len() - k,
    {
        let path = &crate_list[k];
        assert(path@ == paths[k as int]);
        match parse_version(path.as_str()) {
            Err(e) => {
                assert(file_name(paths[k as int]) is None);
                assert(k == n);
                assert(e is MalformedPackageName);
                assert(old_crates_plan(registry_src_path@, string_views(entries@), amount_to_keep) == (removed_versions(paths, amount_to_keep, n), n < paths.len()));
                assert(remove@.map_values(|c: CrateVersion| c@) == removed_versions(paths, amount_to_keep, n));
                return (remove, Some(e));
            },
            Ok((name, version)) => {
                assert(k < n);
                let ghost names_n = crate_names(paths, n);
                let ghost names_k1 = crate_names(paths, k + 1);
                assert(names_n[k as int] == name@);
                if k > 0 && last_name == name {
                    newer = newer + 1;
                } else {
                    newer = 0;
                }
                assert(newer == newer_versions(names_n, k as int));
                proof {
                    lemma_newer_versions_prefix(names_n, names_k1, k as int);
                }
                let ghost before = remove@.map_values(|c: CrateVersion| c@);
                if newer >= amount_to_keep {
                    remove.push(CrateVersion { path: copy_string(path), name: copy_string(&name), version });
                    assert(remove@.map_values(|c: CrateVersion| c@) =~= before.push(CrateVersionView {
                        path: paths[k as int],
                        name: name_and_version(paths[k as int]).0,
                        version: name_and_version(paths[k as int]).1,
                    }));
                }
                last_name = name;
            },
        }
        k = k + 1;
    }
    assert(k == n);
    (remove, None)
}

proof fn lemma_newer_versions_prefix(a: Seq<Seq<char>>, b: Seq<Seq<char>>, k: int)
    requires
        0 <= k < b.len() <= a.len(),
        forall|j: int| 0 <= j < b.len() ==> a[j] == b[j],
    ensures
        newer_versions(a, k) == newer_versions(b, k),
    decreases k,
{
    if k > 0 {
        lemma_newer_versions_prefix(a, b, k - 1);
    }
}

fn copy_string(s: &String) -> (r: String)
    ensures
        r@ == s@,
{
    s.clone()
}

} // verus!

verus! {

/// Within a run of versions of one crate, each version has one more newer version before it than
/// the one before it: so the versions kept are the newest of each crate, at most
/// `amount_to_keep` of them.
pub proof fn lemma_newer_versions_run(names: Seq<Seq<char>>, j: int, k: int)
    requires
        0 <= j <= k < names.len(),
        forall|m: int| j < m <= k ==> #[trigger] names[m] == names[m - 1],
    ensures
        newer_versions(names, k) == newer_versions(names, j) + (k - j),
    decreases k - j,
{
    if j < k {
        lemma_newer_versions_run(names, j, k - 1);
    }
}

/// A version is removed whenever the newer version of the same crate right before it is.
pub proof fn lemma_removal_spares_newer(names: Seq<Seq<char>>, amount_to_keep: u64, k: int)
    requires
        0 < k < names.len(),
        names[k] == names[k - 1],
        newer_versions(names, k - 1) >= amount_to_keep,
    ensures
        newer_versions(names, k) >= amount_to_keep,
{
}

/// What to print when a dry run would remove something.
pub enum DryRunMessage {
    /// This message.
    Custom(String),
    /// The default message naming the path.
    Default,
    /// Nothing at all.
    Nothing,
}

/// What removing a file or directory takes: a line to print first, if any, and whether to
/// actually delete the path.
pub struct FileRemoval {
    pub path: String,
    pub message: Option<String>,
    pub delete: bool,
}

/// The line printed for the removal of `path`: in a dry run the dry-run message (the default one
/// names the path and, when known, its size), else the deletion message.
pub open spec fn removal_message(
    path: Seq<char>,
    dry_run: bool,
    deletion_msg: Option<Seq<char>>,
    dry_run_msg: DryRunMessage,
    total_size_from_cache: Option<u64>,
) -> Option<Seq<char>> {
    if dry_run {
        match dry_run_msg {
            DryRunMessage::Custom(m) => Some(m@),
            DryRunMessage::Default => match total_size_from_cache {
                Some(size) => Some("dry-run: would remove: '"@ + path + "' ("@ + decimal_file_size(size) + ")"@),
                None => Some("dry-run: would remove: '"@ + path + "'"@),
            },
            DryRunMessage::Nothing => None,
        }
    } else {
        deletion_msg
    }
}

/// Decides the removal of `path`: a dry run only prints its dry-run message, a real run prints
/// the deletion message (if any) and deletes the path.
pub fn remove_file(
    path: &str,
    dry_run: bool,
    deletion_msg: Option<String>,
    dry_run_msg: &DryRunMessage,
    total_size_from_cache: Option<u64>,
) -> (r: FileRemoval)
    ensures
        r.path@ == path@,
        r.message.deep_view() == removal_message(path@, dry_run, deletion_msg.deep_view(), *dry_run_msg, total_size_from_cache),
        r.delete == !dry_run,
{
    let mut p = String::new();
    push_str(&mut p, path);
    if dry_run {
        let message = match dry_run_msg {
            DryRunMessage::Custom(msg) => Some(copy_string(msg)),
            DryRunMessage::Default => {
                let mut m = String::new();
                push_str(&mut m, "dry-run: would remove: '");
                push_str(&mut m, path);
                match total_size_from_cache {
                    Some(size) => {
                        push_str(&mut m, "' (");
                        let hr = human_size(size);
                        push_str(&mut m, hr.as_str());
                        push_str(&mut m, ")");
                    },
                    None => {
                        push_str(&mut m, "'");
                    },
                }
                Some(m)
            },
            DryRunMessage::Nothing => None,
        };
        FileRemoval { path: p, message, delete: false }
    } else {
        FileRemoval { path: p, message: deletion_msg, delete: true }
    }
}

/// Decides the removal of `dir` with the default messages: `removing: '<dir>'`, or in a dry run
/// the default dry-run message.
pub fn remove_with_default_message(dir: &str, dry_run: bool, total_size_from_cache: Option<u64>) -> (r: FileRemoval)
    ensures
        r.path@ == dir@,
        r.message.deep_view() == removal_message(
            dir@,
            dry_run,
            Some("removing: '"@ + dir@ + "'"@),
            DryRunMessage::Default,
            total_size_from_cache,
        ),
        r.delete == !dry_run,
{
    let mut msg = String::new();
    push_str(&mut msg, "removing: '");
    push_str(&mut msg, dir);
    push_str(&mut msg, "'");
    remove_file(dir, dry_run, Some(msg), &DryRunMessage::Default, total_size_from_cache)
}

/// The dry-run message for an old version of a crate.
pub fn old_crate_dry_run_message(v: &CrateVersion) -> (r: String)
    ensures
        r@ == "dry run: not actually deleting "@ + v.name@ + " "@ + v.version@ + " at "@ + v.path@,
{
    let mut m = String::new();
    push_str(&mut m, "dry run: not actually deleting ");
    push_str(&mut m, v.name.as_str());
    push_str(&mut m, " ");
    push_str(&mut m, v.version.as_str());
    push_str(&mut m, " at ");
    push_str(&mut m, v.path.as_str());
    m
}

} // verus!

verus! {

/// The sizes of the removable directories, as the caches report them.
pub struct ComponentSizes {
    pub git_db: u64,
    pub git_repos: u64,
    pub registry_sources: u64,
    pub registry_crate_cache: u64,
    pub registry_index: u64,
}

/// The size of a removable directory.
pub open spec fn component_size(sizes: ComponentSizes, c: Component) -> u64 {
    match c {
        Component::GitDB => sizes.git_db,
        Component::GitRepos => sizes.git_repos,
        Component::RegistrySources => sizes.registry_sources,
        Component::RegistryCrateCache => sizes.registry_crate_cache,
        Component::RegistryIndex => sizes.registry_index,
    }
}

/// The path of a removable directory.
pub open spec fn component_path(ccd: crate::library::CargoCachePathsView, c: Component) -> Seq<char> {
    match c {
        Component::GitDB => ccd.git_repos_bare,
        Component::GitRepos => ccd.git_checkouts,
        Component::RegistrySources => ccd.registry_sources,
        Component::RegistryCrateCache => ccd.registry_pkg_cache,
        Component::RegistryIndex => ccd.registry_index,
    }
}

/// The sum of the sizes of the first `n` directories.
pub open spec fn components_total(cs: Seq<Component>, sizes: ComponentSizes, n: int) -> nat
    decreases n,
{
    if n <= 0 {
        0
    } else {
        components_total(cs, sizes, n - 1) + component_size(sizes, cs[n - 1]) as nat
    }
}

/// All five sizes together fit in a `u64`.
pub open spec fn sizes_fit(sizes: ComponentSizes) -> bool {
    sizes.git_db + sizes.git_repos + sizes.registry_sources + sizes.registry_crate_cache
        + sizes.registry_index <= u64::MAX
}

/// The removal of one directory asked for by `--remove-dir`.
pub struct DirRemoval {
    pub component: Component,
    pub removal: FileRemoval,
}

/// Decides the removals that `--remove-dir` asks for: the directories the named groups cover, in
/// removal order, each removed with the default messages and its size, and for a dry run a last
/// line with the total size that would be removed.
pub fn remove_dir_via_cmdline(
    directory: Option<&str>,
    dry_run: bool,
    ccd: &crate::library::CargoCachePaths,
    sizes: &ComponentSizes,
) -> (r: Result<(Vec<DirRemoval>, Option<String>), Error>)
    requires
        sizes_fit(*sizes),
    ensures
        match components_of(opt_str_view(directory)) {
            RemoveDirArgs::Selected(cs) => r matches Ok((rs, total)) && rs@.len() == cs.len()
                && (forall|k: int| 0 <= k < cs.len() ==> {
                    let d = #[trigger] rs@[k];
                    &&& d.component == cs[k]
                    &&& d.removal.path@ == component_path(ccd@, cs[k])
                    &&& d.removal.delete == !dry_run
                    &&& d.removal.message.deep_view() == removal_message(
                        component_path(ccd@, cs[k]),
                        dry_run,
                        Some("removing: '"@ + component_path(ccd@, cs[k]) + "'"@),
                        DryRunMessage::Default,
                        Some(component_size(*sizes, cs[k])),
                    )
                }) && total.deep_view() == (if dry_run {
                    Some("dry-run: would remove in total: "@ + decimal_file_size(components_total(cs, *sizes, cs.len() as int) as u64))
                } else {
                    None
                }),
            RemoveDirArgs::Invalid(text) => r matches Err(Error::InvalidDeletableDirs(t)) && t@ == text,
            RemoveDirArgs::NoArg => r matches Err(Error::RemoveDirNoArg),
        },
{
    let components = match components_from_groups(directory) {
        Ok(cs) => cs,
        Err(e) => return Err(e),
    };
    let ghost cs = components@;
    let mut out: Vec<DirRemoval> = Vec::new();
    let mut total: u64 = 0;
    let mut k: usize = 0;
    while k < components.len()
        invariant
            k <= components.len(),
            cs == components@,
            sizes_fit(*sizes),
            cs == crate::library::covered_components(split_on(directory->0@, ',')),
            total == components_total(cs, *sizes, k as int),
            out@.len() == k,
            forall|q: int| 0 <= q < k ==> {
                let d = #[trigger] out@[q];
                &&& d.component == cs[q]
                &&& d.removal.path@ == component_path(ccd@, cs[q])
                &&& d.removal.delete == !dry_run
                &&& d.removal.message.deep_view() == removal_message(
                    component_path(ccd@, cs[q]),
                    dry_run,
                    Some("removing: '"@ + component_path(ccd@, cs[q]) + "'"@),
                    DryRunMessage::Default,
                    Some(component_size(*sizes, cs[q])),
                )
            },
        decreases components.len() - k,
    {
        let c = components[k];
        let (path, size) = match c {
            Component::RegistryCrateCache => (&ccd.registry_pkg_cache, sizes.registry_crate_cache),
            Component::RegistrySources => (&ccd.registry_sources, sizes.registry_sources),
            Component::RegistryIndex => (&ccd.registry_index, sizes.registry_index),
            Component::GitRepos => (&ccd.git_checkouts, sizes.git_repos),
            Component::GitDB => (&ccd.git_repos_bare, sizes.git_db),
        };
        proof {
            lemma_components_total_bounded(split_on(directory->0@, ','), *sizes, k + 1);
        }
        total = total + size;
        let removal = remove_with_default_message(path.as_str(), dry_run, Some(size));
        out.push(DirRemoval { component: c, removal });
        k = k + 1;
    }
    let last = if dry_run {
        let mut m = String::new();
        push_str(&mut m, "dry-run: would remove in total: ");
        let t = human_size(total);
        push_str(&mut m, t.as_str());
        Some(m)
    } else {
        None
    };
    Ok((out, last))
}

/// The total of two lists one after the other is the sum of their totals.
proof fn lemma_components_total_concat(a: Seq<Component>, b: Seq<Component>, sizes: ComponentSizes)
    ensures
        components_total(a + b, sizes, (a.len() + b.len()) as int) == components_total(a, sizes, a.len() as int)
            + components_total(b, sizes, b.len() as int),
    decreases b.len(),
{
    if b.len() > 0 {
        let b1 = b.drop_last();
        lemma_components_total_concat(a, b1, sizes);
        assert((a + b).take((a.len() + b1.len()) as int) =~= a + b1);
        lemma_components_total_prefix(a + b, a + b1, sizes, (a.len() + b1.len()) as int);
        lemma_components_total_prefix(b, b1, sizes, b1.len() as int);
    }
}

/// The total of the first `n` directories depends only on them.
proof fn lemma_components_total_prefix(cs: Seq<Component>, ds: Seq<Component>, sizes: ComponentSizes, n: int)
    requires
        0 <= n <= cs.len(),
        n <= ds.len(),
        forall|k: int| 0 <= k < n ==> cs[k] == ds[k],
    ensures
        components_total(cs, sizes, n) == components_total(ds, sizes, n),
    decreases n,
{
    if n > 0 {
        lemma_components_total_prefix(cs, ds, sizes, n - 1);
    }
}

/// A partial total is at most the whole total.
proof fn lemma_components_total_mono(cs: Seq<Component>, sizes: ComponentSizes, n: int)
    requires
        0 <= n <= cs.len(),
    ensures
        components_total(cs, sizes, n) <= components_total(cs, sizes, cs.len() as int),
    decreases cs.len() - n,
{
    if n < cs.len() {
        lemma_components_total_mono(cs, sizes, n + 1);
    }
}

/// The directories covered by some groups have a total of at most the sum of all five sizes.
proof fn lemma_components_total_bounded(names: Seq<Seq<char>>, sizes: ComponentSizes, n: int)
    requires
        0 <= n <= crate::library::covered_components(names).len(),
    ensures
        components_total(crate::library::covered_components(names), sizes, n) <= sizes.git_db
            + sizes.git_repos + sizes.registry_sources + sizes.registry_crate_cache + sizes.registry_index,
{
    let p1 = crate::library::pick(names, Component::GitDB);
    let p2 = crate::library::pick(names, Component::GitRepos);
    let p3 = crate::library::pick(names, Component::RegistrySources);
    let p4 = crate::library::pick(names, Component::RegistryCrateCache);
    let p5 = crate::library::pick(names, Component::RegistryIndex);
    lemma_components_total_concat(p1, p2, sizes);
    lemma_components_total_concat(p1 + p2, p3, sizes);
    lemma_components_total_concat(p1 + p2 + p3, p4, sizes);
    lemma_components_total_concat(p1 + p2 + p3 + p4, p5, sizes);
    lemma_components_total_mono(crate::library::covered_components(names), sizes, n);
    assert(crate::library::covered_components(names) == p1 + p2 + p3 + p4 + p5);
    assert(components_total(p1, sizes, p1.len() as int) <= sizes.git_db) by {
        if p1.len() > 0 { assert(components_total(p1, sizes, 0) == 0); }
    }
    assert(components_total(p2, sizes, p2.len() as int) <= sizes.git_repos) by {
        if p2.len() > 0 { assert(components_total(p2, sizes, 0) == 0); }
    }
    assert(components_total(p3, sizes, p3.len() as int) <= sizes.registry_sources) by {
        if p3.len() > 0 { assert(components_total(p3, sizes, 0) == 0); }
    }
    assert(components_total(p4, sizes, p4.len() as int) <= sizes.registry_crate_cache) by {
        if p4.len() > 0 { assert(components_total(p4, sizes, 0) == 0); }
    }
    assert(components_total(p5, sizes, p5.len() as int) <= sizes.registry_index) by {
        if p5.len() > 0 { assert(components_total(p5, sizes, 0) == 0); }
    }
}

} // verus!

verus! {

/// `r` removes `path` with the default messages and the size given.
pub open spec fn removes_dir(r: FileRemoval, path: Seq<char>, dry_run: bool, size: u64) -> bool {
    &&& r.path@ == path
    &&& r.message.deep_view() == removal_message(path, dry_run, None, DryRunMessage::Default, Some(size))
    &&& r.delete == !dry_run
}

/// Decides the light clean-up (`--autoclean`): the extracted sources and then the git checkouts
/// go, each only where it is a directory (`*_is_dir`), with its size; the crate archives and the
/// bare repositories, from which cargo rebuilds both, stay.
pub fn autoclean(
    paths: &crate::library::CargoCachePaths,
    sources_size: u64,
    sources_is_dir: bool,
    checkouts_size: u64,
    checkouts_is_dir: bool,
    dry_run: bool,
) -> (r: Vec<FileRemoval>)
    ensures
        r@.len() == (if sources_is_dir { 1int } else { 0 }) + (if checkouts_is_dir { 1int } else { 0 }),
        sources_is_dir ==> removes_dir(r@[0], paths@.registry_sources, dry_run, sources_size),
        checkouts_is_dir ==> removes_dir(
            r@[r@.len() - 1],
            paths@.git_checkouts,
            dry_run,
            checkouts_size,
        ),
{
    let mut r: Vec<FileRemoval> = Vec::new();
    if sources_is_dir {
        r.push(remove_file(paths.registry_sources.as_str(), dry_run, None, &DryRunMessage::Default, Some(sources_size)));
    }
    if checkouts_is_dir {
        r.push(remove_file(paths.git_checkouts.as_str(), dry_run, None, &DryRunMessage::Default, Some(checkouts_size)));
    }
    r
}

/// `base` joined with a relative name ends with that name.
proof fn lemma_join_ends_with(base: Seq<char>, name: Seq<char>)
    requires
        name.len() > 0,
        name[0] != '/',
    ensures
        crate::paths::path_join(base, name).last() == name.last(),
{
}

/// The light clean-up keeps what cargo rebuilds from: in a cache laid out under a cargo home, the
/// directories it removes are neither the crate archives nor the bare git repositories.
pub proof fn lemma_autoclean_keeps_originals(home: Seq<char>)
    ensures
        ({
            let c = crate::library::cache_paths(home);
            &&& c.registry_sources != c.registry_pkg_cache
            &&& c.registry_sources != c.git_repos_bare
            &&& c.git_checkouts != c.registry_pkg_cache
            &&& c.git_checkouts != c.git_repos_bare
        }),
{
    let c = crate::library::cache_paths(home);
    reveal_strlit("src");
    reveal_strlit("cache");
    reveal_strlit("db");
    reveal_strlit("checkouts");
    lemma_join_ends_with(c.registry, "src"@);
    lemma_join_ends_with(c.registry, "cache"@);
    lemma_join_ends_with(crate::paths::path_join(home, "git"@), "db"@);
    lemma_join_ends_with(crate::paths::path_join(home, "git"@), "checkouts"@);
}

} // verus!
