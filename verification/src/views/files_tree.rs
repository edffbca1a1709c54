//! The folder tree shown for the files of a package: folders first, then
//! files, each group in name order; a folder whose only child is a folder is
//! shown merged with it (`usr/share/doc`).
use vstd::prelude::*;

use crate::text::{
    chars_eq, chars_lt, chars_of, clone_chars, drop_empty, lex_lt, split, split_chars,
    string_of, strip_dot_slash, strip_dot_slash_chars, views,
};
use crate::utils::deb_files::DebFileEntry;

verus! {

/// One item of the folder tree. Folders are shown expanded.
#[derive(Debug)]
pub struct TreeNode {
    /// A folder's path (components joined by `/`), or a file's path as
    /// stored in the archive.
    pub id: String,
    /// The name shown; merged folders show `a/b`.
    pub label: String,
    pub children: Vec<TreeNode>,
    pub expanded: bool,
}

// ---------------------------------------------------------------------------
// Specification
// ---------------------------------------------------------------------------

/// The components of a path: leading `./` removed, split at `/`, empty
/// components left out.
pub open spec fn path_components(path: Seq<char>) -> Seq<Seq<char>> {
    drop_empty(split(strip_dot_slash(path), '/'))
}

/// The components of each entry's path.
pub open spec fn entry_components(es: Seq<DebFileEntry>) -> Seq<Seq<Seq<char>>> {
    es.map_values(|e: DebFileEntry| path_components(e.path@))
}

/// The path of each entry.
pub open spec fn entry_ids(es: Seq<DebFileEntry>) -> Seq<Seq<char>> {
    es.map_values(|e: DebFileEntry| e.path@)
}

/// `d` is a leading part of `p`.
pub open spec fn is_prefix(d: Seq<Seq<char>>, p: Seq<Seq<char>>) -> bool {
    d.len() <= p.len() && p.take(d.len() as int) == d
}

/// `x` added to a sorted sequence of distinct names, keeping it sorted and
/// distinct.
pub open spec fn insert_unique(s: Seq<Seq<char>>, x: Seq<char>) -> Seq<Seq<char>>
    decreases s.len(),
{
    if s.len() == 0 {
        seq![x]
    } else if s[0] == x {
        s
    } else if lex_lt(x, s[0]) {
        seq![x] + s
    } else {
        seq![s[0]] + insert_unique(s.drop_first(), x)
    }
}

/// The names of the folders directly inside folder `d`, sorted, each once:
/// the component after `d` of every path that continues at least two
/// components past `d`.
pub open spec fn dir_names(ps: Seq<Seq<Seq<char>>>, d: Seq<Seq<char>>) -> Seq<Seq<char>>
    decreases ps.len(),
{
    if ps.len() == 0 {
        Seq::empty()
    } else {
        let r = dir_names(ps.drop_last(), d);
        let p = ps.last();
        if p.len() > d.len() + 1 && is_prefix(d, p) {
            insert_unique(r, p[d.len() as int])
        } else {
            r
        }
    }
}

/// A file shown in the tree: its name and its id.
pub type FileChild = (Seq<char>, Seq<char>);

/// `x` added after every element whose name is not greater than its own.
pub open spec fn insert_stable(s: Seq<FileChild>, x: FileChild) -> Seq<FileChild>
    decreases s.len(),
{
    if s.len() == 0 {
        seq![x]
    } else if lex_lt(x.0, s[0].0) {
        seq![x] + s
    } else {
        seq![s[0]] + insert_stable(s.drop_first(), x)
    }
}

/// The files directly inside folder `d`, in name order, files of equal name
/// in entry order.
pub open spec fn file_children(
    ps: Seq<Seq<Seq<char>>>,
    ids: Seq<Seq<char>>,
    d: Seq<Seq<char>>,
) -> Seq<FileChild>
    decreases ps.len(),
{
    if ps.len() == 0 || ids.len() == 0 {
        Seq::empty()
    } else {
        let r = file_children(ps.drop_last(), ids.drop_last(), d);
        let p = ps.last();
        if p.len() == d.len() + 1 && is_prefix(d, p) {
            insert_stable(r, (p[d.len() as int], ids.last()))
        } else {
            r
        }
    }
}

/// Folder `d` (shown as `label`) merged with its only child while that child
/// is its only item and a folder.
pub open spec fn compact(
    ps: Seq<Seq<Seq<char>>>,
    ids: Seq<Seq<char>>,
    d: Seq<Seq<char>>,
    label: Seq<char>,
    m: int,
) -> (Seq<Seq<char>>, Seq<char>)
    decreases m - d.len(),
{
    let names = dir_names(ps, d);
    if d.len() < m && names.len() == 1 && file_children(ps, ids, d).len() == 0 {
        compact(ps, ids, d.push(names[0]), label.push('/') + names[0], m)
    } else {
        (d, label)
    }
}

/// Components joined with `/`.
pub open spec fn join(c: Seq<Seq<char>>) -> Seq<char>
    decreases c.len(),
{
    if c.len() == 0 {
        Seq::empty()
    } else if c.len() == 1 {
        c[0]
    } else {
        join(c.drop_last()).push('/') + c.last()
    }
}

/// The largest number of components of any path.
pub open spec fn max_depth(ps: Seq<Seq<Seq<char>>>) -> int
    decreases ps.len(),
{
    if ps.len() == 0 {
        0
    } else {
        let r = max_depth(ps.drop_last());
        if ps.last().len() > r {
            ps.last().len() as int
        } else {
            r
        }
    }
}

/// `nodes` are the items shown inside folder `d` (the top level when `d` is
/// empty): first one per folder in `dir_names`, merged by `compact`, with
/// its own items; then one per file in `file_children`.
pub open spec fn forest_matches(
    nodes: Seq<TreeNode>,
    ps: Seq<Seq<Seq<char>>>,
    ids: Seq<Seq<char>>,
    d: Seq<Seq<char>>,
    m: int,
) -> bool
    decreases m - d.len(),
{
    let names = dir_names(ps, d);
    let files = file_children(ps, ids, d);
    &&& nodes.len() == names.len() + files.len()
    &&& forall|i: int|
        0 <= i < names.len() ==> {
            let c = compact(ps, ids, d.push(names[i]), names[i], m);
            &&& (#[trigger] nodes[i]).id@ == join(c.0)
            &&& nodes[i].label@ == c.1
            &&& nodes[i].expanded
            &&& d.len() < c.0.len() <= m
            &&& (d.len() < c.0.len() <= m ==> forest_matches(nodes[i].children@, ps, ids, c.0, m))
        }
    &&& forall|j: int|
        0 <= j < files.len() ==> {
            &&& (#[trigger] nodes[names.len() + j]).id@ == files[j].1
            &&& nodes[names.len() + j].label@ == files[j].0
            &&& nodes[names.len() + j].children@.len() == 0
            &&& !nodes[names.len() + j].expanded
        }
}

/// The tree of the given entries.
pub open spec fn tree_of(nodes: Seq<TreeNode>, es: Seq<DebFileEntry>) -> bool {
    let ps = entry_components(es);
    forest_matches(nodes, ps, entry_ids(es), Seq::empty(), max_depth(ps))
}

pub open spec fn parts_views(v: Seq<Vec<Vec<char>>>) -> Seq<Seq<Seq<char>>> {
    v.map_values(|x: Vec<Vec<char>>| views(x@))
}

pub open spec fn file_views(v: Seq<(Vec<char>, String)>) -> Seq<FileChild> {
    v.map_values(|x: (Vec<char>, String)| (x.0@, x.1@))
}

// ---------------------------------------------------------------------------
// Lemmas
// ---------------------------------------------------------------------------

proof fn lemma_insert_unique_nonempty(s: Seq<Seq<char>>, x: Seq<char>)
    ensures
        insert_unique(s, x).len() > 0,
    decreases s.len(),
{
    if s.len() > 0 && s[0] != x && !lex_lt(x, s[0]) {
        lemma_insert_unique_nonempty(s.drop_first(), x);
    }
}

/// A folder with sub-folders lies at least two components above the
/// deepest path.
pub proof fn lemma_dir_names_bound(ps: Seq<Seq<Seq<char>>>, d: Seq<Seq<char>>)
    ensures
        dir_names(ps, d).len() > 0 ==> d.len() + 2 <= max_depth(ps),
        max_depth(ps) >= 0,
    decreases ps.len(),
{
    if ps.len() > 0 {
        lemma_dir_names_bound(ps.drop_last(), d);
        let r = dir_names(ps.drop_last(), d);
        let p = ps.last();
        if p.len() > d.len() + 1 && is_prefix(d, p) {
            lemma_insert_unique_nonempty(r, p[d.len() as int]);
        }
    }
}

pub proof fn lemma_compact_len(
    ps: Seq<Seq<Seq<char>>>,
    ids: Seq<Seq<char>>,
    d: Seq<Seq<char>>,
    label: Seq<char>,
    m: int,
)
    requires
        d.len() <= m,
    ensures
        d.len() <= compact(ps, ids, d, label, m).0.len() <= m,
    decreases m - d.len(),
{
    let names = dir_names(ps, d);
    if d.len() < m && names.len() == 1 && file_children(ps, ids, d).len() == 0 {
        lemma_compact_len(ps, ids, d.push(names[0]), label.push('/') + names[0], m);
    }
}

/// Names in strictly increasing order (so each once).
pub open spec fn strictly_sorted(s: Seq<Seq<char>>) -> bool {
    forall|i: int, j: int| 0 <= i < j < s.len() ==> lex_lt(#[trigger] s[i], #[trigger] s[j])
}

/// Files in non-decreasing order of name.
pub open spec fn sorted_by_name(s: Seq<FileChild>) -> bool {
    forall|i: int, j: int| 0 <= i < j < s.len() ==> !lex_lt(#[trigger] s[j].0, #[trigger] s[i].0)
}

pub proof fn lemma_lex_irreflexive(a: Seq<char>)
    ensures
        !lex_lt(a, a),
    decreases a.len(),
{
    if a.len() > 0 {
        lemma_lex_irreflexive(a.drop_first());
    }
}

proof fn lemma_lex_asymmetric(a: Seq<char>, b: Seq<char>)
    ensures
        lex_lt(a, b) ==> !lex_lt(b, a),
    decreases a.len(),
{
    if a.len() > 0 && b.len() > 0 && a[0] == b[0] {
        lemma_lex_asymmetric(a.drop_first(), b.drop_first());
    }
}

proof fn lemma_lex_transitive(a: Seq<char>, b: Seq<char>, c: Seq<char>)
    ensures
        lex_lt(a, b) && lex_lt(b, c) ==> lex_lt(a, c),
    decreases a.len(),
{
    if a.len() > 0 && b.len() > 0 && c.len() > 0 && a[0] == b[0] && b[0] == c[0] {
        lemma_lex_transitive(a.drop_first(), b.drop_first(), c.drop_first());
    }
}

proof fn lemma_lex_total(a: Seq<char>, b: Seq<char>)
    ensures
        a != b ==> lex_lt(a, b) || lex_lt(b, a),
    decreases a.len(),
{
    if a.len() > 0 && b.len() > 0 && a[0] == b[0] {
        lemma_lex_total(a.drop_first(), b.drop_first());
        if a.drop_first() == b.drop_first() {
            assert(a =~= seq![a[0]] + a.drop_first());
            assert(b =~= seq![b[0]] + b.drop_first());
        }
    } else if a.len() > 0 && b.len() > 0 {
        assert((a[0] as int) != (b[0] as int));
    } else if a.len() == 0 && b.len() == 0 {
        assert(a =~= b);
    }
}

/// `insert_unique` keeps a strictly sorted sequence strictly sorted, adds
/// `x`, and adds nothing else.
pub proof fn lemma_insert_unique_sorted(s: Seq<Seq<char>>, x: Seq<char>)
    requires
        strictly_sorted(s),
    ensures
        strictly_sorted(insert_unique(s, x)),
        insert_unique(s, x).contains(x),
        forall|y: Seq<char>| #[trigger] insert_unique(s, x).contains(y) ==> y == x || s.contains(y),
    decreases s.len(),
{
    let r = insert_unique(s, x);
    if s.len() == 0 {
        assert(r[0] == x);
    } else if s[0] == x {
        assert(r[0] == x);
    } else if lex_lt(x, s[0]) {
        assert(r[0] == x);
        assert forall|i: int, j: int| 0 <= i < j < r.len() implies lex_lt(
            #[trigger] r[i],
            #[trigger] r[j],
        ) by {
            if i == 0 {
                assert(r[j] == s[j - 1]);
                if j - 1 > 0 {
                    assert(lex_lt(s[0], s[j - 1]));
                    lemma_lex_transitive(x, s[0], s[j - 1]);
                }
            } else {
                assert(r[i] == s[i - 1] && r[j] == s[j - 1]);
            }
        }
        assert forall|y: Seq<char>| #[trigger] r.contains(y) implies y == x || s.contains(y) by {
            let k = choose|k: int| 0 <= k < r.len() && r[k] == y;
            if k > 0 {
                assert(s[k - 1] == y);
            }
        }
    } else {
        let t = s.drop_first();
        assert(strictly_sorted(t)) by {
            assert forall|i: int, j: int| 0 <= i < j < t.len() implies lex_lt(
                #[trigger] t[i],
                #[trigger] t[j],
            ) by {
                assert(t[i] == s[i + 1] && t[j] == s[j + 1]);
            }
        }
        lemma_insert_unique_sorted(t, x);
        let q = insert_unique(t, x);
        assert(r == seq![s[0]] + q);
        lemma_lex_total(x, s[0]);
        assert forall|i: int, j: int| 0 <= i < j < r.len() implies lex_lt(
            #[trigger] r[i],
            #[trigger] r[j],
        ) by {
            if i == 0 {
                assert(r[j] == q[j - 1]);
                assert(q.contains(q[j - 1]));
                if q[j - 1] == x {
                } else {
                    assert(t.contains(q[j - 1]));
                    let k = choose|k: int| 0 <= k < t.len() && t[k] == q[j - 1];
                    assert(s[k + 1] == t[k]);
                }
            } else {
                assert(r[i] == q[i - 1] && r[j] == q[j - 1]);
            }
        }
        assert(q.contains(x));
        let kx = choose|k: int| 0 <= k < q.len() && q[k] == x;
        assert(r[kx + 1] == x);
        assert forall|y: Seq<char>| #[trigger] r.contains(y) implies y == x || s.contains(y) by {
            let k = choose|k: int| 0 <= k < r.len() && r[k] == y;
            if k == 0 {
                assert(s[0] == y);
            } else {
                assert(q[k - 1] == y);
                assert(q.contains(y));
                if y != x {
                    assert(t.contains(y));
                    let m = choose|m: int| 0 <= m < t.len() && t[m] == y;
                    assert(s[m + 1] == y);
                }
            }
        }
    }
}

/// `insert_stable` keeps a sequence sorted by name and adds `x` to it.
proof fn lemma_insert_stable_sorted(s: Seq<FileChild>, x: FileChild)
    requires
        sorted_by_name(s),
    ensures
        sorted_by_name(insert_stable(s, x)),
        insert_stable(s, x).len() == s.len() + 1,
        forall|k: int|
            0 <= k < insert_stable(s, x).len() ==> #[trigger] insert_stable(s, x)[k] == x || s.contains(
                insert_stable(s, x)[k],
            ),
    decreases s.len(),
{
    let r = insert_stable(s, x);
    if s.len() == 0 {
    } else if lex_lt(x.0, s[0].0) {
        assert forall|i: int, j: int| 0 <= i < j < r.len() implies !lex_lt(
            #[trigger] r[j].0,
            #[trigger] r[i].0,
        ) by {
            if i == 0 {
                assert(r[j] == s[j - 1]);
                if j - 1 > 0 {
                    assert(!lex_lt(s[j - 1].0, s[0].0));
                    lemma_lex_total(s[j - 1].0, s[0].0);
                    if s[j - 1].0 != s[0].0 {
                        lemma_lex_transitive(x.0, s[0].0, s[j - 1].0);
                    }
                }
                lemma_lex_asymmetric(x.0, r[j].0);
            } else {
                assert(r[i] == s[i - 1] && r[j] == s[j - 1]);
            }
        }
        assert forall|k: int| 0 <= k < r.len() implies #[trigger] r[k] == x || s.contains(r[k]) by {
            if k > 0 {
                assert(r[k] == s[k - 1]);
            }
        }
    } else {
        let t = s.drop_first();
        assert(sorted_by_name(t)) by {
            assert forall|i: int, j: int| 0 <= i < j < t.len() implies !lex_lt(
                #[trigger] t[j].0,
                #[trigger] t[i].0,
            ) by {
                assert(t[i] == s[i + 1] && t[j] == s[j + 1]);
            }
        }
        lemma_insert_stable_sorted(t, x);
        let q = insert_stable(t, x);
        assert(r == seq![s[0]] + q);
        assert forall|i: int, j: int| 0 <= i < j < r.len() implies !lex_lt(
            #[trigger] r[j].0,
            #[trigger] r[i].0,
        ) by {
            if i == 0 {
                assert(r[j] == q[j - 1]);
                if q[j - 1] != x {
                    assert(t.contains(q[j - 1]));
                    let m = choose|m: int| 0 <= m < t.len() && t[m] == q[j - 1];
                    assert(s[m + 1] == t[m]);
                }
            } else {
                assert(r[i] == q[i - 1] && r[j] == q[j - 1]);
            }
        }
        assert forall|k: int| 0 <= k < r.len() implies #[trigger] r[k] == x || s.contains(r[k]) by {
            if k == 0 {
                assert(s[0] == r[0]);
            } else {
                assert(r[k] == q[k - 1]);
                if q[k - 1] != x {
                    assert(t.contains(q[k - 1]));
                    let m = choose|m: int| 0 <= m < t.len() && t[m] == q[k - 1];
                    assert(s[m + 1] == t[m]);
                }
            }
        }
    }
}

/// Every level of the tree lists its folders in strictly increasing name
/// order (each folder once) and then its files in name order.
pub proof fn law_levels_sorted(ps: Seq<Seq<Seq<char>>>, ids: Seq<Seq<char>>, d: Seq<Seq<char>>)
    ensures
        strictly_sorted(dir_names(ps, d)),
        sorted_by_name(file_children(ps, ids, d)),
    decreases ps.len(),
{
    if ps.len() > 0 {
        law_levels_sorted(ps.drop_last(), ids.drop_last(), d);
        let p = ps.last();
        if p.len() > d.len() + 1 && is_prefix(d, p) {
            lemma_insert_unique_sorted(dir_names(ps.drop_last(), d), p[d.len() as int]);
        }
        if ids.len() > 0 && p.len() == d.len() + 1 && is_prefix(d, p) {
            lemma_insert_stable_sorted(
                file_children(ps.drop_last(), ids.drop_last(), d),
                (p[d.len() as int], ids.last()),
            );
        }
    }
}

// ---------------------------------------------------------------------------
// Implementation
// ---------------------------------------------------------------------------

/// The components of a path.
pub fn components(path: &str) -> (r: Vec<Vec<char>>)
    ensures
        views(r@) == path_components(path@),
{
    let cs = chars_of(path);
    let clean = strip_dot_slash_chars(cs.as_slice());
    let parts = split_chars(clean.as_slice(), '/');
    let ghost pv = views(parts@);
    let mut out: Vec<Vec<char>> = Vec::new();
    let mut i: usize = 0;
    while i < parts.len()
        invariant
            i <= parts.len(),
            pv == views(parts@),
            pv == split(strip_dot_slash(path@), '/'),
            views(out@) == drop_empty(pv.take(i as int)),
        decreases parts.len() - i,
    {
        assert(pv.take(i + 1).drop_last() =~= pv.take(i as int));
        if parts[i].len() > 0 {
            let piece = clone_chars(parts[i].as_slice());
            let ghost prev = out@;
            out.push(piece);
            assert(views(out@) =~= views(prev).push(pv[i as int]));
        }
        i = i + 1;
        assert(views(out@) =~= drop_empty(pv.take(i as int)));
    }
    assert(pv.take(parts.len() as int) =~= pv);
    out
}

/// Whether `d` is a leading part of `p`.
fn prefix_of(d: &Vec<Vec<char>>, p: &Vec<Vec<char>>) -> (r: bool)
    ensures
        r == is_prefix(views(d@), views(p@)),
{
    if d.len() > p.len() {
        return false;
    }
    let mut i: usize = 0;
    while i < d.len()
        invariant
            d.len() <= p.len(),
            i <= d.len(),
            forall|k: int| 0 <= k < i ==> d@[k]@ == p@[k]@,
        decreases d.len() - i,
    {
        if !chars_eq(d[i].as_slice(), p[i].as_slice()) {
            assert(views(p@).take(d.len() as int)[i as int] != views(d@)[i as int]);
            return false;
        }
        i = i + 1;
    }
    assert(views(p@).take(d.len() as int) =~= views(d@));
    true
}

/// Adds `x` to a sorted vector of distinct names.
fn insert_unique_into(s: &mut Vec<Vec<char>>, x: Vec<char>)
    ensures
        views(final(s)@) == insert_unique(views(old(s)@), x@),
{
    let ghost s0 = views(s@);
    let mut k: usize = 0;
    assert(s0.skip(0) =~= s0);
    assert(s0.take(0) + s0.skip(0) =~= s0);
    while k < s.len() && !chars_eq(s[k].as_slice(), x.as_slice()) && !chars_lt(
        x.as_slice(),
        s[k].as_slice(),
    )
        invariant
            k <= s.len(),
            views(s@) == s0,
            insert_unique(s0, x@) == s0.take(k as int) + insert_unique(s0.skip(k as int), x@),
        decreases s.len() - k,
    {
        assert(s0.skip(k as int)[0] == s0[k as int]);
        assert(s0.skip(k as int).drop_first() =~= s0.skip(k + 1));
        assert(s0.take(k + 1) =~= s0.take(k as int).push(s0[k as int]));
        assert(s0.take(k as int) + (seq![s0[k as int]] + insert_unique(s0.skip(k + 1), x@))
            =~= s0.take(k + 1) + insert_unique(s0.skip(k + 1), x@));
        k = k + 1;
    }
    if k == s.len() {
        assert(s0.skip(k as int) =~= Seq::<Seq<char>>::empty());
        assert(s0.take(k as int) =~= s0);
        let ghost prev = s@;
        s.push(x);
        assert(views(s@) =~= views(prev).push(x@));
    } else if chars_eq(s[k].as_slice(), x.as_slice()) {
        assert(s0.skip(k as int)[0] == s0[k as int]);
        assert(s0.take(k as int) + s0.skip(k as int) =~= s0);
    } else {
        assert(s0.skip(k as int)[0] == s0[k as int]);
        let ghost prev = s@;
        s.insert(k, x);
        assert(views(s@) =~= s0.take(k as int) + (seq![x@] + s0.skip(k as int)));
    }
}

/// Adds a file after every file whose name is not greater than its own.
fn insert_stable_into(s: &mut Vec<(Vec<char>, String)>, x: (Vec<char>, String))
    ensures
        file_views(final(s)@) == insert_stable(file_views(old(s)@), (x.0@, x.1@)),
{
    let ghost s0 = file_views(s@);
    let ghost xv = (x.0@, x.1@);
    let mut k: usize = 0;
    assert(s0.skip(0) =~= s0);
    assert(s0.take(0) + s0.skip(0) =~= s0);
    while k < s.len() && !chars_lt(x.0.as_slice(), s[k].0.as_slice())
        invariant
            k <= s.len(),
            file_views(s@) == s0,
            xv == (x.0@, x.1@),
            insert_stable(s0, xv) == s0.take(k as int) + insert_stable(s0.skip(k as int), xv),
        decreases s.len() - k,
    {
        assert(s0.skip(k as int)[0] == s0[k as int]);
        assert(s0.skip(k as int).drop_first() =~= s0.skip(k + 1));
        assert(s0.take(k as int) + (seq![s0[k as int]] + insert_stable(s0.skip(k + 1), xv))
            =~= s0.take(k + 1) + insert_stable(s0.skip(k + 1), xv));
        k = k + 1;
    }
    if k == s.len() {
        assert(s0.skip(k as int) =~= Seq::<FileChild>::empty());
        assert(s0.take(k as int) =~= s0);
        let ghost prev = s@;
        s.push(x);
        assert(file_views(s@) =~= file_views(prev).push(xv));
    } else {
        assert(s0.skip(k as int)[0] == s0[k as int]);
        s.insert(k, x);
        assert(file_views(s@) =~= s0.take(k as int) + (seq![xv] + s0.skip(k as int)));
    }
}

/// The sorted distinct names of the folders directly inside folder `d`.
fn dir_names_in(parts: &Vec<Vec<Vec<char>>>, d: &Vec<Vec<char>>) -> (r: Vec<Vec<char>>)
    ensures
        views(r@) == dir_names(parts_views(parts@), views(d@)),
{
    let ghost ps = parts_views(parts@);
    let mut out: Vec<Vec<char>> = Vec::new();
    let mut i: usize = 0;
    while i < parts.len()
        invariant
            i <= parts.len(),
            ps == parts_views(parts@),
            views(out@) == dir_names(ps.take(i as int), views(d@)),
        decreases parts.len() - i,
    {
        assert(ps.take(i + 1).drop_last() =~= ps.take(i as int));
        assert(ps.take(i + 1).last() == views(parts@[i as int]@));
        let p = &parts[i];
        if p.len() > d.len() && p.len() - d.len() >= 2 && prefix_of(d, p) {
            let name = clone_chars(p[d.len()].as_slice());
            insert_unique_into(&mut out, name);
        }
        i = i + 1;
    }
    assert(ps.take(parts.len() as int) =~= ps);
    out
}

/// The files directly inside folder `d`, in name order.
fn file_children_in(
    parts: &Vec<Vec<Vec<char>>>,
    entries: &[DebFileEntry],
    d: &Vec<Vec<char>>,
) -> (r: Vec<(Vec<char>, String)>)
    requires
        parts.len() == entries.len(),
    ensures
        file_views(r@) == file_children(parts_views(parts@), entry_ids(entries@), views(d@)),
{
    let ghost ps = parts_views(parts@);
    let ghost ids = entry_ids(entries@);
    let mut out: Vec<(Vec<char>, String)> = Vec::new();
    let mut i: usize = 0;
    while i < parts.len()
        invariant
            i <= parts.len(),
            parts.len() == entries.len(),
            ps == parts_views(parts@),
            ids == entry_ids(entries@),
            file_views(out@) == file_children(ps.take(i as int), ids.take(i as int), views(d@)),
        decreases parts.len() - i,
    {
        assert(ps.take(i + 1).drop_last() =~= ps.take(i as int));
        assert(ids.take(i + 1).drop_last() =~= ids.take(i as int));
        assert(ps.take(i + 1).last() == views(parts@[i as int]@));
        assert(ids.take(i + 1).last() == entries@[i as int].path@);
        let p = &parts[i];
        if p.len() > d.len() && p.len() - d.len() == 1 && prefix_of(d, p) {
            let name = clone_chars(p[d.len()].as_slice());
            let id = entries[i].path.clone();
            insert_stable_into(&mut out, (name, id));
        }
        i = i + 1;
    }
    assert(ps.take(parts.len() as int) =~= ps);
    assert(ids.take(parts.len() as int) =~= ids);
    out
}

/// Folder `d` merged with its only child while that child is its only item
/// and a folder.
fn compact_dir(
    parts: &Vec<Vec<Vec<char>>>,
    entries: &[DebFileEntry],
    d: Vec<Vec<char>>,
    label: Vec<char>,
    m: usize,
) -> (r: (Vec<Vec<char>>, Vec<char>))
    requires
        parts.len() == entries.len(),
        d.len() <= m,
    ensures
        (views(r.0@), r.1@) == compact(
            parts_views(parts@),
            entry_ids(entries@),
            views(d@),
            label@,
            m as int,
        ),
{
    let ghost ps = parts_views(parts@);
    let ghost ids = entry_ids(entries@);
    let mut d = d;
    let mut label = label;
    let ghost goal = compact(ps, ids, views(d@), label@, m as int);
    loop
        invariant
            parts.len() == entries.len(),
            ps == parts_views(parts@),
            ids == entry_ids(entries@),
            d.len() <= m,
            goal == compact(ps, ids, views(d@), label@, m as int),
        ensures
            goal == (views(d@), label@),
        decreases m - d.len(),
    {
        if d.len() >= m {
            break ;
        }
        let names = dir_names_in(parts, &d);
        if names.len() != 1 {
            break ;
        }
        let files = file_children_in(parts, entries, &d);
        if files.len() != 0 {
            break ;
        }
        let name = clone_chars(names[0].as_slice());
        let mut tail = clone_chars(names[0].as_slice());
        let ghost prev = d@;
        d.push(name);
        assert(views(d@) =~= views(prev).push(views(names@)[0]));
        label.push('/');
        label.append(&mut tail);
    }
    (d, label)
}

/// Components joined with `/`.
fn join_components(c: &Vec<Vec<char>>) -> (r: Vec<char>)
    ensures
        r@ == join(views(c@)),
{
    let ghost cv = views(c@);
    let mut out: Vec<char> = Vec::new();
    let mut i: usize = 0;
    while i < c.len()
        invariant
            i <= c.len(),
            cv == views(c@),
            out@ == join(cv.take(i as int)),
        decreases c.len() - i,
    {
        assert(cv.take(i + 1).drop_last() =~= cv.take(i as int));
        let mut piece = clone_chars(c[i].as_slice());
        if i > 0 {
            out.push('/');
        } else {
            assert(cv.take(1)[0] == cv[0]);
        }
        out.append(&mut piece);
        i = i + 1;
    }
    assert(cv.take(c.len() as int) =~= cv);
    out
}

/// The items shown inside folder `d`.
fn build_level(
    parts: &Vec<Vec<Vec<char>>>,
    entries: &[DebFileEntry],
    d: &Vec<Vec<char>>,
    m: usize,
) -> (r: Vec<TreeNode>)
    requires
        parts.len() == entries.len(),
        d.len() <= m,
        m == max_depth(parts_views(parts@)),
    ensures
        forest_matches(r@, parts_views(parts@), entry_ids(entries@), views(d@), m as int),
    decreases m - d.len(),
{
    let ghost ps = parts_views(parts@);
    let ghost ids = entry_ids(entries@);
    let ghost dv = views(d@);
    let names = dir_names_in(parts, d);
    let files = file_children_in(parts, entries, d);
    proof {
        lemma_dir_names_bound(ps, dv);
    }
    let mut out: Vec<TreeNode> = Vec::new();
    let mut i: usize = 0;
    while i < names.len()
        invariant
            parts.len() == entries.len(),
            ps == parts_views(parts@),
            ids == entry_ids(entries@),
            dv == views(d@),
            m == max_depth(ps),
            d.len() <= m,
            views(names@) == dir_names(ps, dv),
            names.len() > 0 ==> d.len() + 2 <= m,
            i <= names.len(),
            out.len() == i,
            forall|k: int|
                0 <= k < i ==> {
                    let c = compact(ps, ids, dv.push(views(names@)[k]), views(names@)[k], m as int);
                    &&& (#[trigger] out@[k]).id@ == join(c.0)
                    &&& out@[k].label@ == c.1
                    &&& out@[k].expanded
                    &&& d.len() < c.0.len() <= m
                    &&& forest_matches(out@[k].children@, ps, ids, c.0, m as int)
                },
        decreases names.len() - i,
    {
        let mut sub: Vec<Vec<char>> = Vec::new();
        let mut j: usize = 0;
        while j < d.len()
            invariant
                j <= d.len(),
                views(sub@) == views(d@).take(j as int),
            decreases d.len() - j,
        {
            let ghost prev = sub@;
            sub.push(clone_chars(d[j].as_slice()));
            assert(views(sub@) =~= views(prev).push(views(d@)[j as int]));
            assert(views(sub@) =~= views(d@).take(j + 1));
            j = j + 1;
        }
        assert(views(d@).take(d.len() as int) =~= views(d@));
        let ghost prev = sub@;
        sub.push(clone_chars(names[i].as_slice()));
        assert(views(sub@) =~= dv.push(views(names@)[i as int]));
        let label = clone_chars(names[i].as_slice());
        let (folder, shown) = compact_dir(parts, entries, sub, label, m);
        proof {
            lemma_compact_len(ps, ids, dv.push(views(names@)[i as int]), views(names@)[i as int], m as int);
        }
        let children = build_level(parts, entries, &folder, m);
        let id = join_components(&folder);
        let node = TreeNode {
            id: string_of(id.as_slice()),
            label: string_of(shown.as_slice()),
            children,
            expanded: true,
        };
        out.push(node);
        i = i + 1;
    }
    let mut j: usize = 0;
    while j < files.len()
        invariant
            ps == parts_views(parts@),
            ids == entry_ids(entries@),
            dv == views(d@),
            d.len() <= m,
            views(names@) == dir_names(ps, dv),
            file_views(files@) == file_children(ps, ids, dv),
            j <= files.len(),
            out.len() == names.len() + j,
            forall|k: int|
                0 <= k < names.len() ==> {
                    let c = compact(ps, ids, dv.push(views(names@)[k]), views(names@)[k], m as int);
                    &&& (#[trigger] out@[k]).id@ == join(c.0)
                    &&& out@[k].label@ == c.1
                    &&& out@[k].expanded
                    &&& d.len() < c.0.len() <= m
                    &&& forest_matches(out@[k].children@, ps, ids, c.0, m as int)
                },
            forall|k: int|
                0 <= k < j ==> {
                    &&& (#[trigger] out@[names.len() + k]).id@ == file_views(files@)[k].1
                    &&& out@[names.len() + k].label@ == file_views(files@)[k].0
                    &&& out@[names.len() + k].children@.len() == 0
                    &&& !out@[names.len() + k].expanded
                },
        decreases files.len() - j,
    {
        let node = TreeNode {
            id: files[j].1.clone(),
            label: string_of(files[j].0.as_slice()),
            children: Vec::new(),
            expanded: false,
        };
        out.push(node);
        j = j + 1;
    }
    proof {
        let names_v = views(names@);
        let files_v = file_views(files@);
        assert forall|k: int| 0 <= k < names_v.len() implies {
            let c = compact(ps, ids, dv.push(names_v[k]), names_v[k], m as int);
            &&& (#[trigger] out@[k]).id@ == join(c.0)
            &&& out@[k].label@ == c.1
            &&& out@[k].expanded
            &&& dv.len() < c.0.len() <= m
            &&& (dv.len() < c.0.len() <= m ==> forest_matches(
                out@[k].children@,
                ps,
                ids,
                c.0,
                m as int,
            ))
        } by {}
        assert forall|k: int| 0 <= k < files_v.len() implies {
            &&& (#[trigger] out@[names_v.len() + k]).id@ == files_v[k].1
            &&& out@[names_v.len() + k].label@ == files_v[k].0
            &&& out@[names_v.len() + k].children@.len() == 0
            &&& !out@[names_v.len() + k].expanded
        } by {}
    }
    out
}

/// The folder tree of the given files: top-level folders first, then
/// top-level files, each group in name order, recursively.
pub fn build_tree_items_clean(entries: &[DebFileEntry]) -> (r: Vec<TreeNode>)
    ensures
        tree_of(r@, entries@),
{
    let ghost ps = entry_components(entries@);
    let mut parts: Vec<Vec<Vec<char>>> = Vec::new();
    let mut m: usize = 0;
    let mut i: usize = 0;
    while i < entries.len()
        invariant
            i <= entries.len(),
            ps == entry_components(entries@),
            parts_views(parts@) == ps.take(i as int),
            m == max_depth(ps.take(i as int)),
        decreases entries.len() - i,
    {
        assert(ps.take(i + 1).drop_last() =~= ps.take(i as int));
        let c = components(entries[i].path.as_str());
        if c.len() > m {
            m = c.len();
        }
        let ghost prev = parts@;
        parts.push(c);
        assert(parts_views(parts@) =~= parts_views(prev).push(ps[i as int]));
        i = i + 1;
    }
    assert(ps.take(entries.len() as int) =~= ps);
    let root: Vec<Vec<char>> = Vec::new();
    assert(views(root@) =~= Seq::<Seq<char>>::empty());
    build_level(&parts, entries, &root, m)
}

} // verus!
