//! Unix paths held as strings: their components, their file name, and the names of cache entries.
use vstd::prelude::*;

use crate::text::{chars_of, push_char, str_equals, string_of};

verus! {

/// The pieces of `s` between occurrences of `sep`, as `str::split` with a `char` gives them:
/// there is always at least one piece, and `n` separators give `n + 1` pieces.
pub open spec fn split_on(s: Seq<char>, sep: char) -> Seq<Seq<char>>
    decreases s.len(),
{
    if s.len() == 0 {
        seq![seq![]]
    } else {
        let rest = split_on(s.drop_last(), sep);
        if s.last() == sep {
            rest.push(seq![])
        } else {
            rest.update(rest.len() - 1, rest.last().push(s.last()))
        }
    }
}

/// `split_on` always gives at least one piece.
pub proof fn lemma_split_on_nonempty(s: Seq<char>, sep: char)
    ensures
        split_on(s, sep).len() >= 1,
    decreases s.len(),
{
    if s.len() > 0 {
        lemma_split_on_nonempty(s.drop_last(), sep);
    }
}

/// A piece between slashes that is a component of its own: not empty and not `.`.
pub open spec fn is_kept_piece(p: Seq<char>) -> bool {
    p.len() > 0 && p != seq!['.']
}

/// The pieces of `ps` that are components of their own, in order.
pub open spec fn kept_pieces(ps: Seq<Seq<char>>) -> Seq<Seq<char>>
    decreases ps.len(),
{
    if ps.len() == 0 {
        seq![]
    } else if is_kept_piece(ps.last()) {
        kept_pieces(ps.drop_last()).push(ps.last())
    } else {
        kept_pieces(ps.drop_last())
    }
}

/// The components of the path `s`, as `Path::components` (and `Path::iter`) give them on Unix: a
/// leading `/` is a component of its own, repeated and trailing slashes are ignored, and `.` is
/// dropped except at the very start of a relative path.
pub open spec fn components(s: Seq<char>) -> Seq<Seq<char>> {
    let pieces = split_on(s, '/');
    let prefix = if s.len() > 0 && s[0] == '/' {
        seq![seq!['/']]
    } else if pieces[0] == seq!['.'] {
        seq![seq!['.']]
    } else {
        seq![]
    };
    prefix + kept_pieces(pieces)
}

/// A component that names an entry: not the root, `.` or `..`.
pub open spec fn is_normal_component(c: Seq<char>) -> bool {
    c != seq!['/'] && c != seq!['.'] && c != seq!['.', '.']
}

/// The file name of the path `s` (`Path::file_name`): its last component when that names an entry.
pub open spec fn file_name(s: Seq<char>) -> Option<Seq<char>> {
    let cs = components(s);
    if cs.len() > 0 && is_normal_component(cs.last()) {
        Some(cs.last())
    } else {
        None
    }
}

/// `s` up to its last `-`, or nothing when it holds no `-`: the pieces of `s` split at `-`, all
/// but the last one, joined by `-` again.
pub open spec fn before_last_dash(s: Seq<char>) -> Seq<char>
    decreases s.len(),
{
    if s.len() == 0 {
        seq![]
    } else if s.last() == '-' {
        s.drop_last()
    } else {
        before_last_dash(s.drop_last())
    }
}

/// The pieces of `s` split at `sep`, computed.
pub fn split_chars(s: &Vec<char>, sep: char) -> (r: Vec<Vec<char>>)
    ensures
        r@.map_values(|p: Vec<char>| p@) == split_on(s@, sep),
{
    let mut r: Vec<Vec<char>> = Vec::new();
    let mut cur: Vec<char> = Vec::new();
    let mut i: usize = 0;
    while i < s.len()
        invariant
            i <= s.len(),
            r@.map_values(|p: Vec<char>| p@).push(cur@) == split_on(s@.take(i as int), sep),
        decreases s.len() - i,
    {
        let ghost before = r@.map_values(|p: Vec<char>| p@).push(cur@);
        let c = s[i];
        assert(s@.take(i + 1).drop_last() =~= s@.take(i as int));
        assert(s@.take(i + 1).last() == c);
        if c == sep {
            let done = cur;
            r.push(done);
            cur = Vec::new();
            assert(r@.map_values(|p: Vec<char>| p@).push(cur@) =~= before.push(seq![]));
        } else {
            cur.push(c);
            assert(r@.map_values(|p: Vec<char>| p@).push(cur@) =~= before.update(
                before.len() - 1,
                before.last().push(c),
            ));
        }
        i = i + 1;
    }
    assert(s@.take(s.len() as int) =~= s@);
    r.push(cur);
    r
}

/// The components of the path `s`.
pub fn path_components(s: &str) -> (r: Vec<String>)
    ensures
        r@.map_values(|c: String| c@) == components(s@),
{
    let cs = chars_of(s);
    let pieces = split_chars(&cs, '/');
    let ghost ps = pieces@.map_values(|p: Vec<char>| p@);
    proof {
        lemma_split_on_nonempty(s@, '/');
    }
    let mut r: Vec<String> = Vec::new();
    if cs.len() > 0 && cs[0] == '/' {
        let mut root = String::new();
        push_char(&mut root, '/');
        r.push(root);
    } else if pieces[0].len() == 1 && pieces[0][0] == '.' {
        assert(ps[0] == pieces@[0]@);
        assert(pieces@[0]@ =~= seq!['.']);
        let mut dot = String::new();
        push_char(&mut dot, '.');
        r.push(dot);
    } else {
        assert(ps[0] == pieces@[0]@);
        assert(ps[0] != seq!['.']) by {
            if ps[0] == seq!['.'] {
                assert(pieces@[0]@.len() == 1);
            }
        }
    }
    let ghost prefix = r@.map_values(|c: String| c@);
    let mut j: usize = 0;
    while j < pieces.len()
        invariant
            j <= pieces.len(),
            ps == pieces@.map_values(|p: Vec<char>| p@),
            r@.map_values(|c: String| c@) == prefix + kept_pieces(ps.take(j as int)),
        decreases pieces.len() - j,
    {
        let ghost before = r@.map_values(|c: String| c@);
        assert(ps.take(j + 1).drop_last() =~= ps.take(j as int));
        assert(ps.take(j + 1).last() == pieces@[j as int]@);
        let p = &pieces[j];
        let keep = p.len() > 0 && !(p.len() == 1 && p[0] == '.');
        assert(keep == is_kept_piece(p@)) by {
            if p@ == seq!['.'] {
                assert(p@.len() == 1);
            }
            if p.len() == 1 && p[0] == '.' {
                assert(p@ =~= seq!['.']);
            }
        }
        if keep {
            r.push(string_of(p));
            assert(r@.map_values(|c: String| c@) =~= before.push(p@));
        }
        j = j + 1;
    }
    assert(ps.take(pieces.len() as int) =~= ps);
    r
}

/// The file name of the path `s` (`Path::file_name`).
pub fn path_file_name(s: &str) -> (r: Option<String>)
    ensures
        match r {
            Some(n) => file_name(s@) == Some(n@),
            None => file_name(s@) is None,
        },
{
    let mut cs = path_components(s);
    let ghost v = cs@.map_values(|c: String| c@);
    if cs.len() == 0 {
        return None;
    }
    let last = cs.pop().unwrap();
    assert(v.last() == last@);
    let lc = chars_of(last.as_str());
    let special = (lc.len() == 1 && (lc[0] == '/' || lc[0] == '.')) || (lc.len() == 2 && lc[0] == '.'
        && lc[1] == '.');
    assert(special == !is_normal_component(last@)) by {
        if last@ == seq!['/'] || last@ == seq!['.'] {
            assert(lc@.len() == 1);
        }
        if last@ == seq!['.', '.'] {
            assert(lc@.len() == 2);
        }
        if lc.len() == 1 && lc[0] == '/' {
            assert(lc@ =~= seq!['/']);
        }
        if lc.len() == 1 && lc[0] == '.' {
            assert(lc@ =~= seq!['.']);
        }
        if lc.len() == 2 && lc[0] == '.' && lc[1] == '.' {
            assert(lc@ =~= seq!['.', '.']);
        }
    }
    if special {
        None
    } else {
        Some(last)
    }
}

/// `s` up to its last `-`, or nothing when it holds no `-`.
pub fn chars_before_last_dash(s: &Vec<char>) -> (r: Vec<char>)
    ensures
        r@ == before_last_dash(s@),
{
    let mut k: usize = s.len();
    assert(s@.take(s.len() as int) =~= s@);
    while k > 0 && s[k - 1] != '-'
        invariant
            k <= s.len(),
            before_last_dash(s@.take(k as int)) == before_last_dash(s@),
        decreases k,
    {
        assert(s@.take(k as int).drop_last() =~= s@.take(k - 1));
        k = k - 1;
    }
    assert(s@.take(s.len() as int) =~= s@);
    let mut r: Vec<char> = Vec::new();
    if k > 0 {
        assert(s@.take(k as int).drop_last() =~= s@.take(k - 1));
        let mut i: usize = 0;
        while i < k - 1
            invariant
                0 < k <= s.len(),
                i <= k - 1,
                r@ == s@.take(i as int),
            decreases k - 1 - i,
        {
            r.push(s[i]);
            i = i + 1;
            assert(r@ =~= s@.take(i as int));
        }
    } else {
        assert(s@.take(0) =~= Seq::<char>::empty());
    }
    r
}

/// The name of a registry or cache entry from its path: its file name without the part after
/// the last `-` (`.../github.com-1ecc6299db9ec823` gives `github.com`).
pub fn get_cache_name(path: &str) -> (r: String)
    requires
        file_name(path@) is Some,
    ensures
        r@ == before_last_dash(file_name(path@)->0),
{
    let name = path_file_name(path).unwrap();
    let cs = chars_of(name.as_str());
    string_of(&chars_before_last_dash(&cs))
}

} // verus!

verus! {

/// `base` joined with the relative path `name` (`Path::join`): `name` alone when it is absolute
/// or `base` is empty, else the two with one `/` between them.
pub open spec fn path_join(base: Seq<char>, name: Seq<char>) -> Seq<char> {
    if name.len() > 0 && name[0] == '/' {
        name
    } else if base.len() == 0 {
        name
    } else if base.last() == '/' {
        base + name
    } else {
        base + seq!['/'] + name
    }
}

/// `base` joined with `name`.
pub fn join_path(base: &str, name: &str) -> (r: String)
    ensures
        r@ == path_join(base@, name@),
{
    let bc = chars_of(base);
    let nc = chars_of(name);
    let mut r = String::new();
    if nc.len() > 0 && nc[0] == '/' {
        crate::text::push_str(&mut r, name);
    } else if bc.len() == 0 {
        crate::text::push_str(&mut r, name);
    } else if bc[bc.len() - 1] == '/' {
        crate::text::push_str(&mut r, base);
        crate::text::push_str(&mut r, name);
    } else {
        crate::text::push_str(&mut r, base);
        push_char(&mut r, '/');
        crate::text::push_str(&mut r, name);
    }
    r
}

} // verus!

verus! {

/// The views of a list of strings.
pub open spec fn str_views(v: Seq<String>) -> Seq<Seq<char>> {
    v.map_values(|s: String| s@)
}

/// Two paths are the same path (`Path == Path`): they have the same components.
pub open spec fn same_path(a: Seq<char>, b: Seq<char>) -> bool {
    components(a) == components(b)
}

/// `base` is a leading part of `p` (`Path::starts_with`): its components begin those of `p`.
pub open spec fn path_starts_with(p: Seq<char>, base: Seq<char>) -> bool {
    let (cp, cb) = (components(p), components(base));
    cb.len() <= cp.len() && cp.take(cb.len() as int) == cb
}

fn strings_equal(a: &Vec<String>, b: &Vec<String>, n: usize) -> (r: bool)
    requires
        n <= a.len(),
        n <= b.len(),
    ensures
        r == (str_views(a@).take(n as int) == str_views(b@).take(n as int)),
{
    let mut i: usize = 0;
    while i < n
        invariant
            n <= a.len(),
            n <= b.len(),
            i <= n,
            forall|k: int| 0 <= k < i ==> a@[k]@ == b@[k]@,
        decreases n - i,
    {
        if !str_equals(a[i].as_str(), b[i].as_str()) {
            assert(str_views(a@).take(n as int)[i as int] == a@[i as int]@);
            assert(str_views(b@).take(n as int)[i as int] == b@[i as int]@);
            return false;
        }
        i = i + 1;
    }
    assert(str_views(a@).take(n as int) =~= str_views(b@).take(n as int));
    true
}

/// Whether `a` and `b` are the same path.
pub fn is_same_path(a: &str, b: &str) -> (r: bool)
    ensures
        r == same_path(a@, b@),
{
    let ca = path_components(a);
    let cb = path_components(b);
    proof {
        assert(str_views(ca@) == components(a@));
        assert(str_views(cb@) == components(b@));
    }
    if ca.len() != cb.len() {
        return false;
    }
    let r = strings_equal(&ca, &cb, ca.len());
    proof {
        assert(str_views(ca@).take(ca.len() as int) =~= str_views(ca@));
        assert(str_views(cb@).take(cb.len() as int) =~= str_views(cb@));
    }
    r
}

/// Whether `p` starts with the path `base`.
pub fn starts_with_path(p: &str, base: &str) -> (r: bool)
    ensures
        r == path_starts_with(p@, base@),
{
    let cp = path_components(p);
    let cb = path_components(base);
    proof {
        assert(str_views(cp@) == components(p@));
        assert(str_views(cb@) == components(base@));
    }
    if cb.len() > cp.len() {
        return false;
    }
    let r = strings_equal(&cp, &cb, cb.len());
    proof {
        assert(str_views(cb@).take(cb.len() as int) =~= str_views(cb@));
    }
    r
}

/// `i` is the first position of `name` in `cs`.
pub open spec fn first_at(cs: Seq<Seq<char>>, name: Seq<char>, i: int) -> bool {
    &&& 0 <= i < cs.len()
    &&& cs[i] == name
    &&& forall|j: int| 0 <= j < i ==> cs[j] != name
}

/// The first position of `name` in `cs` (`iter().position(..)`), if it occurs.
pub open spec fn first_index(cs: Seq<Seq<char>>, name: Seq<char>) -> Option<int> {
    if exists|i: int| first_at(cs, name, i) {
        Some(choose|i: int| first_at(cs, name, i))
    } else {
        None
    }
}

/// The first position is the only one that `first_at` admits.
pub proof fn lemma_first_at_unique(cs: Seq<Seq<char>>, name: Seq<char>, i: int)
    requires
        first_at(cs, name, i),
    ensures
        first_index(cs, name) == Some(i),
{
    let j = choose|j: int| first_at(cs, name, j);
    assert(first_at(cs, name, j));
    if j < i {
        assert(cs[j] != name);
    } else if i < j {
        assert(cs[i] != name);
    }
}

/// The first position of `name` among the strings.
pub fn position_of(cs: &Vec<String>, name: &str) -> (r: Option<usize>)
    ensures
        match r {
            Some(i) => first_index(str_views(cs@), name@) == Some(i as int),
            None => first_index(str_views(cs@), name@) is None,
        },
{
    let ghost v = str_views(cs@);
    let mut i: usize = 0;
    while i < cs.len()
        invariant
            i <= cs.len(),
            v == str_views(cs@),
            forall|j: int| 0 <= j < i ==> v[j] != name@,
        decreases cs.len() - i,
    {
        if str_equals(cs[i].as_str(), name) {
            proof {
                assert(first_at(v, name@, i as int));
                lemma_first_at_unique(v, name@, i as int);
            }
            return Some(i);
        }
        i = i + 1;
    }
    assert(!exists|i: int| first_at(v, name@, i));
    None
}

/// `base` with each of `segs` pushed onto it in turn (`PathBuf::push`).
pub open spec fn joined(base: Seq<char>, segs: Seq<Seq<char>>) -> Seq<char>
    decreases segs.len(),
{
    if segs.len() == 0 {
        base
    } else {
        path_join(joined(base, segs.drop_last()), segs.last())
    }
}

/// `base` with `segs[from..to]` pushed onto it in turn.
pub fn join_all(base: &str, segs: &Vec<String>, from: usize, to: usize) -> (r: String)
    requires
        from <= to <= segs.len(),
    ensures
        r@ == joined(base@, str_views(segs@).subrange(from as int, to as int)),
{
    let ghost v = str_views(segs@);
    let mut r = string_of(&chars_of(base));
    let mut i: usize = from;
    assert(v.subrange(from as int, from as int) =~= Seq::<Seq<char>>::empty());
    while i < to
        invariant
            from <= i <= to <= segs.len(),
            v == str_views(segs@),
            r@ == joined(base@, v.subrange(from as int, i as int)),
        decreases to - i,
    {
        assert(v.subrange(from as int, i + 1).drop_last() =~= v.subrange(from as int, i as int));
        r = join_path(r.as_str(), segs[i].as_str());
        i = i + 1;
    }
    r
}

} // verus!
