//! What the folder tree shows: every listed file exactly once.
use vstd::multiset::Multiset;
use vstd::prelude::*;

use crate::utils::deb_files::DebFileEntry;
use crate::views::files_tree::{
    compact, dir_names, entry_components, entry_ids, file_children, forest_matches,
    insert_stable, insert_unique, is_prefix, law_levels_sorted,
    lemma_dir_names_bound, lemma_insert_unique_sorted, lemma_lex_irreflexive, max_depth,
    path_components, strictly_sorted, tree_of, FileChild, TreeNode,
};

verus! {

broadcast use vstd::multiset::group_multiset_axioms;

// ---------------------------------------------------------------------------
// Specification
// ---------------------------------------------------------------------------

/// The ids of the files shown in a forest (folders show their contents).
pub open spec fn leaves(nodes: Seq<TreeNode>) -> Multiset<Seq<char>>
    decreases nodes,
{
    if nodes.len() == 0 {
        Multiset::empty()
    } else {
        let n = nodes[nodes.len() - 1];
        let rest = nodes.subrange(0, nodes.len() - 1);
        if n.expanded {
            proof {
                assert(decreases_to!(nodes => n));
                assert(decreases_to!(n => n.children));
                assert(decreases_to!(n.children => n.children@));
            }
            leaves(rest).add(leaves(n.children@))
        } else {
            leaves(rest).insert(n.id@)
        }
    }
}

/// The paths of the entries that have at least one path component: the
/// files that the tree is to show.
pub open spec fn listed(es: Seq<DebFileEntry>) -> Multiset<Seq<char>>
    decreases es.len(),
{
    if es.len() == 0 {
        Multiset::empty()
    } else if path_components(es.last().path@).len() > 0 {
        listed(es.drop_last()).insert(es.last().path@)
    } else {
        listed(es.drop_last())
    }
}

/// The ids of the entries strictly inside folder `d`.
pub open spec fn under(ps: Seq<Seq<Seq<char>>>, ids: Seq<Seq<char>>, d: Seq<Seq<char>>) -> Multiset<
    Seq<char>,
>
    decreases ps.len(),
{
    if ps.len() == 0 || ids.len() == 0 {
        Multiset::empty()
    } else if ps.last().len() > d.len() && is_prefix(d, ps.last()) {
        under(ps.drop_last(), ids.drop_last(), d).insert(ids.last())
    } else {
        under(ps.drop_last(), ids.drop_last(), d)
    }
}

/// The ids of the entries directly inside folder `d`.
pub open spec fn under_exact(ps: Seq<Seq<Seq<char>>>, ids: Seq<Seq<char>>, d: Seq<Seq<char>>) -> Multiset<
    Seq<char>,
>
    decreases ps.len(),
{
    if ps.len() == 0 || ids.len() == 0 {
        Multiset::empty()
    } else if ps.last().len() == d.len() + 1 && is_prefix(d, ps.last()) {
        under_exact(ps.drop_last(), ids.drop_last(), d).insert(ids.last())
    } else {
        under_exact(ps.drop_last(), ids.drop_last(), d)
    }
}

/// The ids of the entries inside a sub-folder of folder `d`.
pub open spec fn under_deep(ps: Seq<Seq<Seq<char>>>, ids: Seq<Seq<char>>, d: Seq<Seq<char>>) -> Multiset<
    Seq<char>,
>
    decreases ps.len(),
{
    if ps.len() == 0 || ids.len() == 0 {
        Multiset::empty()
    } else if ps.last().len() > d.len() + 1 && is_prefix(d, ps.last()) {
        under_deep(ps.drop_last(), ids.drop_last(), d).insert(ids.last())
    } else {
        under_deep(ps.drop_last(), ids.drop_last(), d)
    }
}

/// The ids of a list of files.
pub open spec fn file_ids(fs: Seq<FileChild>) -> Multiset<Seq<char>>
    decreases fs.len(),
{
    if fs.len() == 0 {
        Multiset::empty()
    } else {
        file_ids(fs.drop_last()).insert(fs.last().1)
    }
}

/// The ids of the entries inside the sub-folders `d/n` for `n` in `names`.
pub open spec fn sum_under(
    ps: Seq<Seq<Seq<char>>>,
    ids: Seq<Seq<char>>,
    d: Seq<Seq<char>>,
    names: Seq<Seq<char>>,
) -> Multiset<Seq<char>>
    decreases names.len(),
{
    if names.len() == 0 {
        Multiset::empty()
    } else {
        sum_under(ps, ids, d, names.drop_last()).add(under(ps, ids, d.push(names.last())))
    }
}

// ---------------------------------------------------------------------------
// Lemmas
// ---------------------------------------------------------------------------

proof fn lemma_under_split(ps: Seq<Seq<Seq<char>>>, ids: Seq<Seq<char>>, d: Seq<Seq<char>>)
    ensures
        under(ps, ids, d) =~= under_exact(ps, ids, d).add(under_deep(ps, ids, d)),
    decreases ps.len(),
{
    if ps.len() > 0 && ids.len() > 0 {
        lemma_under_split(ps.drop_last(), ids.drop_last(), d);
    }
}

proof fn lemma_file_ids_prepend(a: FileChild, t: Seq<FileChild>)
    ensures
        file_ids(seq![a] + t) =~= file_ids(t).insert(a.1),
    decreases t.len(),
{
    let u = seq![a] + t;
    if t.len() == 0 {
        assert(u.drop_last() =~= Seq::<FileChild>::empty());
        assert(u.last() == a);
        assert(file_ids(u) == file_ids(u.drop_last()).insert(u.last().1));
        assert(file_ids(t) =~= Multiset::<Seq<char>>::empty());
    } else {
        lemma_file_ids_prepend(a, t.drop_last());
        assert(u.drop_last() =~= seq![a] + t.drop_last());
        assert(u.last() == t.last());
        assert(file_ids(u) == file_ids(u.drop_last()).insert(t.last().1));
        assert(file_ids(t) == file_ids(t.drop_last()).insert(t.last().1));
    }
}

proof fn lemma_file_ids_insert_stable(s: Seq<FileChild>, x: FileChild)
    ensures
        file_ids(insert_stable(s, x)) =~= file_ids(s).insert(x.1),
    decreases s.len(),
{
    if s.len() == 0 {
        lemma_file_ids_prepend(x, s);
        assert(seq![x] + s =~= seq![x]);
    } else if crate::text::lex_lt(x.0, s[0].0) {
        lemma_file_ids_prepend(x, s);
    } else {
        lemma_file_ids_insert_stable(s.drop_first(), x);
        lemma_file_ids_prepend(s[0], insert_stable(s.drop_first(), x));
        lemma_file_ids_prepend(s[0], s.drop_first());
        assert(seq![s[0]] + s.drop_first() =~= s);
    }
}

/// The files shown directly in folder `d` are the entries directly in it.
proof fn lemma_file_children_ids(ps: Seq<Seq<Seq<char>>>, ids: Seq<Seq<char>>, d: Seq<Seq<char>>)
    ensures
        file_ids(file_children(ps, ids, d)) =~= under_exact(ps, ids, d),
    decreases ps.len(),
{
    if ps.len() > 0 && ids.len() > 0 {
        lemma_file_children_ids(ps.drop_last(), ids.drop_last(), d);
        let p = ps.last();
        if p.len() == d.len() + 1 && is_prefix(d, p) {
            lemma_file_ids_insert_stable(
                file_children(ps.drop_last(), ids.drop_last(), d),
                (p[d.len() as int], ids.last()),
            );
        }
    }
}

/// `insert_unique` keeps every name that was there.
proof fn lemma_insert_unique_keeps(r: Seq<Seq<char>>, x: Seq<char>, y: Seq<char>)
    requires
        r.contains(y),
    ensures
        insert_unique(r, x).contains(y),
    decreases r.len(),
{
    let q = insert_unique(r, x);
    let k = choose|k: int| 0 <= k < r.len() && r[k] == y;
    if r[0] == x {
    } else if crate::text::lex_lt(x, r[0]) {
        assert(q[k + 1] == y);
    } else if k == 0 {
        assert(q[0] == y);
    } else {
        assert(r.drop_first()[k - 1] == y);
        lemma_insert_unique_keeps(r.drop_first(), x, y);
        let t = insert_unique(r.drop_first(), x);
        let j = choose|j: int| 0 <= j < t.len() && t[j] == y;
        assert(q[j + 1] == y);
    }
}

/// Every path that goes on below a sub-folder of `d` names that sub-folder
/// among `dir_names`.
proof fn lemma_dir_names_cover(ps: Seq<Seq<Seq<char>>>, d: Seq<Seq<char>>)
    ensures
        forall|i: int|
            0 <= i < ps.len() && ps[i].len() > d.len() + 1 && is_prefix(d, ps[i]) ==> dir_names(
                ps,
                d,
            ).contains(#[trigger] ps[i][d.len() as int]),
    decreases ps.len(),
{
    if ps.len() > 0 {
        lemma_dir_names_cover(ps.drop_last(), d);
        let r = dir_names(ps.drop_last(), d);
        let p = ps.last();
        assert forall|i: int|
            0 <= i < ps.len() && ps[i].len() > d.len() + 1 && is_prefix(d, ps[i]) implies dir_names(
            ps,
            d,
        ).contains(#[trigger] ps[i][d.len() as int]) by {
            if i < ps.len() - 1 {
                assert(ps.drop_last()[i] == ps[i]);
                if p.len() > d.len() + 1 && is_prefix(d, p) {
                    lemma_insert_unique_keeps(r, p[d.len() as int], ps[i][d.len() as int]);
                }
            } else {
                law_levels_sorted(ps.drop_last(), Seq::empty(), d);
                lemma_insert_unique_sorted(r, p[d.len() as int]);
            }
        }
    }
}

/// A strictly sorted sequence holds each name once.
proof fn lemma_sorted_distinct(s: Seq<Seq<char>>)
    requires
        strictly_sorted(s),
    ensures
        forall|i: int, j: int| 0 <= i < s.len() && 0 <= j < s.len() && i != j ==> s[i] != s[j],
{
    assert forall|i: int, j: int| 0 <= i < s.len() && 0 <= j < s.len() && i != j implies s[i]
        != s[j] by {
        if i < j {
            assert(crate::text::lex_lt(s[i], s[j]));
            lemma_lex_irreflexive(s[i]);
        } else {
            assert(crate::text::lex_lt(s[j], s[i]));
            lemma_lex_irreflexive(s[j]);
        }
    }
}

pub open spec fn distinct(s: Seq<Seq<char>>) -> bool {
    forall|i: int, j: int| 0 <= i < s.len() && 0 <= j < s.len() && i != j ==> s[i] != s[j]
}

/// `p` lies strictly inside `d/n` exactly when it lies inside a sub-folder
/// of `d` whose name is `n`.
proof fn lemma_prefix_push(d: Seq<Seq<char>>, n: Seq<char>, p: Seq<Seq<char>>)
    requires
        p.len() > d.len() + 1,
    ensures
        is_prefix(d.push(n), p) == (is_prefix(d, p) && p[d.len() as int] == n),
{
    if is_prefix(d.push(n), p) {
        assert(p.take(d.len() as int) =~= p.take(d.len() + 1int).take(d.len() as int));
        assert(d.push(n).take(d.len() as int) =~= d);
        assert(p.take(d.len() + 1int)[d.len() as int] == p[d.len() as int]);
        assert(d.push(n)[d.len() as int] == n);
    }
    if is_prefix(d, p) && p[d.len() as int] == n {
        assert(p.take(d.len() + 1int) =~= d.push(n));
    }
}

/// What one more entry adds to the ids inside the sub-folders `d/n`.
pub open spec fn extra(p: Seq<Seq<char>>, id: Seq<char>, d: Seq<Seq<char>>, names: Seq<Seq<char>>) -> Multiset<
    Seq<char>,
> {
    if p.len() > d.len() + 1 && is_prefix(d, p) && names.contains(p[d.len() as int]) {
        Multiset::singleton(id)
    } else {
        Multiset::empty()
    }
}

proof fn lemma_sum_under_push(
    ps: Seq<Seq<Seq<char>>>,
    ids: Seq<Seq<char>>,
    p: Seq<Seq<char>>,
    id: Seq<char>,
    d: Seq<Seq<char>>,
    names: Seq<Seq<char>>,
)
    requires
        distinct(names),
    ensures
        sum_under(ps.push(p), ids.push(id), d, names) =~= sum_under(ps, ids, d, names).add(
            extra(p, id, d, names),
        ),
    decreases names.len(),
{
    if names.len() > 0 {
        let n0 = names.drop_last();
        let n = names.last();
        assert(distinct(n0)) by {
            assert forall|i: int, j: int| 0 <= i < n0.len() && 0 <= j < n0.len() && i != j implies n0[i]
                != n0[j] by {
                assert(n0[i] == names[i] && n0[j] == names[j]);
            }
        }
        lemma_sum_under_push(ps, ids, p, id, d, n0);
        assert(ps.push(p).drop_last() =~= ps);
        assert(ids.push(id).drop_last() =~= ids);
        let e = d.push(n);
        if p.len() > d.len() + 1 {
            lemma_prefix_push(d, n, p);
        }
        let x = if p.len() > d.len() { p[d.len() as int] } else { n };
        if names.contains(x) && p.len() > d.len() + 1 {
            let k = choose|k: int| 0 <= k < names.len() && names[k] == x;
            if k < names.len() - 1 {
                assert(n0[k] == x);
                assert(n != x);
            } else {
                assert(!n0.contains(x)) by {
                    if n0.contains(x) {
                        let j = choose|j: int| 0 <= j < n0.len() && n0[j] == x;
                        assert(names[j] == x);
                    }
                }
            }
        } else if p.len() > d.len() + 1 {
            assert(!n0.contains(x)) by {
                if n0.contains(x) {
                    let j = choose|j: int| 0 <= j < n0.len() && n0[j] == x;
                    assert(names[j] == x);
                }
            }
            assert(n != x) by {
                if n == x {
                    assert(names[names.len() - 1] == x);
                }
            }
        } else {
        }
        if p.len() > d.len() + 1 && n0.contains(x) {
            let j = choose|j: int| 0 <= j < n0.len() && n0[j] == x;
            assert(names[j] == x);
        }
        if p.len() > d.len() + 1 && n == x {
            assert(names[names.len() - 1] == x);
        }
    }
}

proof fn lemma_sum_under_empty(ids: Seq<Seq<char>>, d: Seq<Seq<char>>, names: Seq<Seq<char>>)
    ensures
        sum_under(Seq::empty(), ids, d, names) =~= Multiset::<Seq<char>>::empty(),
    decreases names.len(),
{
    if names.len() > 0 {
        lemma_sum_under_empty(ids, d, names.drop_last());
    }
}

/// The sub-folders named in `names` (each once, covering every sub-folder
/// that holds something) together hold the entries inside sub-folders of
/// `d`.
proof fn lemma_sum_partition(
    ps: Seq<Seq<Seq<char>>>,
    ids: Seq<Seq<char>>,
    d: Seq<Seq<char>>,
    names: Seq<Seq<char>>,
)
    requires
        ps.len() == ids.len(),
        distinct(names),
        forall|i: int|
            0 <= i < ps.len() && ps[i].len() > d.len() + 1 && is_prefix(d, ps[i]) ==> names.contains(
                #[trigger] ps[i][d.len() as int],
            ),
    ensures
        sum_under(ps, ids, d, names) =~= under_deep(ps, ids, d),
    decreases ps.len(),
{
    if ps.len() == 0 {
        lemma_sum_under_empty(ids, d, names);
        assert(ps =~= Seq::<Seq<Seq<char>>>::empty());
    } else {
        let ps0 = ps.drop_last();
        let ids0 = ids.drop_last();
        assert forall|i: int|
            0 <= i < ps0.len() && ps0[i].len() > d.len() + 1 && is_prefix(d, ps0[i]) implies names.contains(
            #[trigger] ps0[i][d.len() as int],
        ) by {
            assert(ps0[i] == ps[i]);
        }
        lemma_sum_partition(ps0, ids0, d, names);
        lemma_sum_under_push(ps0, ids0, ps.last(), ids.last(), d, names);
        assert(ps0.push(ps.last()) =~= ps);
        assert(ids0.push(ids.last()) =~= ids);
        let p = ps.last();
        if p.len() > d.len() + 1 && is_prefix(d, p) {
            assert(ps[ps.len() - 1] == p);
            assert(names.contains(p[d.len() as int]));
        }
    }
}

/// Merging a folder with its only sub-folder keeps what it holds.
proof fn lemma_compact_under(
    ps: Seq<Seq<Seq<char>>>,
    ids: Seq<Seq<char>>,
    d: Seq<Seq<char>>,
    label: Seq<char>,
    m: int,
)
    requires
        ps.len() == ids.len(),
        d.len() <= m,
    ensures
        under(ps, ids, compact(ps, ids, d, label, m).0) =~= under(ps, ids, d),
    decreases m - d.len(),
{
    let names = dir_names(ps, d);
    if d.len() < m && names.len() == 1 && file_children(ps, ids, d).len() == 0 {
        lemma_compact_under(ps, ids, d.push(names[0]), label.push('/') + names[0], m);
        lemma_under_split(ps, ids, d);
        lemma_file_children_ids(ps, ids, d);
        lemma_dir_names_cover(ps, d);
        assert(distinct(names));
        lemma_sum_partition(ps, ids, d, names);
        assert(names.drop_last() =~= Seq::<Seq<char>>::empty());
        assert(sum_under(ps, ids, d, names.drop_last()) =~= Multiset::<Seq<char>>::empty());
        assert(names.last() == names[0]);
        assert(sum_under(ps, ids, d, names) =~= under(ps, ids, d.push(names[0])));
        assert(file_children(ps, ids, d) =~= Seq::<FileChild>::empty());
        assert(file_ids(file_children(ps, ids, d)) =~= Multiset::<Seq<char>>::empty());
        assert(under_exact(ps, ids, d) =~= Multiset::<Seq<char>>::empty());
        assert(under(ps, ids, d) =~= under(ps, ids, d.push(names[0])));
        assert(compact(ps, ids, d, label, m) == compact(ps, ids, d.push(names[0]), label.push('/') + names[0], m));
    }
}

/// The files shown in the forest of folder `d` are the entries inside `d`.
proof fn lemma_forest_leaves(
    nodes: Seq<TreeNode>,
    ps: Seq<Seq<Seq<char>>>,
    ids: Seq<Seq<char>>,
    d: Seq<Seq<char>>,
    m: int,
)
    requires
        forest_matches(nodes, ps, ids, d, m),
        d.len() <= m,
        ps.len() == ids.len(),
    ensures
        leaves(nodes) =~= under(ps, ids, d),
    decreases m - d.len(), nodes.len() + 1,
{
    let names = dir_names(ps, d);
    let files = file_children(ps, ids, d);
    let k: int = names.len() as int;
    let fl: int = files.len() as int;
    lemma_dir_prefix(nodes, ps, ids, d, m, k);
    assert(names.take(k) =~= names);
    lemma_file_prefix(nodes, ps, ids, d, m, fl);
    assert(nodes.subrange(0, k + fl) =~= nodes);
    assert(files.take(fl) =~= files);
    lemma_under_split(ps, ids, d);
    lemma_file_children_ids(ps, ids, d);
    lemma_dir_names_cover(ps, d);
    law_levels_sorted(ps, ids, d);
    lemma_sorted_distinct(names);
    lemma_sum_partition(ps, ids, d, names);
}

/// The files shown in the first `j` sub-folders of folder `d`.
proof fn lemma_dir_prefix(
    nodes: Seq<TreeNode>,
    ps: Seq<Seq<Seq<char>>>,
    ids: Seq<Seq<char>>,
    d: Seq<Seq<char>>,
    m: int,
    j: int,
)
    requires
        forest_matches(nodes, ps, ids, d, m),
        d.len() <= m,
        ps.len() == ids.len(),
        0 <= j <= dir_names(ps, d).len(),
    ensures
        leaves(nodes.subrange(0, j)) =~= sum_under(ps, ids, d, dir_names(ps, d).take(j)),
    decreases m - d.len(), j,
{
    let names = dir_names(ps, d);
    if j == 0 {
        assert(nodes.subrange(0, 0) =~= Seq::<TreeNode>::empty());
        assert(names.take(0) =~= Seq::<Seq<char>>::empty());
    } else {
        let i = j - 1;
        lemma_dir_prefix(nodes, ps, ids, d, m, i);
        let n = nodes[i];
        let c = compact(ps, ids, d.push(names[i]), names[i], m);
        assert(n.expanded && d.len() < c.0.len() <= m);
        lemma_forest_leaves(n.children@, ps, ids, c.0, m);
        lemma_compact_under(ps, ids, d.push(names[i]), names[i], m);
        let pre = nodes.subrange(0, j);
        assert(pre.subrange(0, i) =~= nodes.subrange(0, i));
        assert(pre[i] == n);
        assert(names.take(j).drop_last() =~= names.take(i));
        assert(names.take(j).last() == names[i]);
    }
}

/// The files shown in folder `d`'s sub-folders and first `f` files.
proof fn lemma_file_prefix(
    nodes: Seq<TreeNode>,
    ps: Seq<Seq<Seq<char>>>,
    ids: Seq<Seq<char>>,
    d: Seq<Seq<char>>,
    m: int,
    f: int,
)
    requires
        forest_matches(nodes, ps, ids, d, m),
        leaves(nodes.subrange(0, dir_names(ps, d).len() as int)) =~= sum_under(
            ps,
            ids,
            d,
            dir_names(ps, d),
        ),
        0 <= f <= file_children(ps, ids, d).len(),
    ensures
        leaves(nodes.subrange(0, dir_names(ps, d).len() + f)) =~= sum_under(
            ps,
            ids,
            d,
            dir_names(ps, d),
        ).add(file_ids(file_children(ps, ids, d).take(f))),
    decreases f,
{
    let k: int = dir_names(ps, d).len() as int;
    let files = file_children(ps, ids, d);
    if f == 0 {
        assert(files.take(0) =~= Seq::<FileChild>::empty());
    } else {
        let g = f - 1;
        lemma_file_prefix(nodes, ps, ids, d, m, g);
        let n = nodes[k + g];
        assert(n.id@ == files[g].1 && !n.expanded);
        let pre = nodes.subrange(0, k + f);
        assert(pre.subrange(0, k + g) =~= nodes.subrange(0, k + g));
        assert(pre[k + g] == n);
        assert(files.take(f).drop_last() =~= files.take(g));
        assert(files.take(f).last() == files[g]);
    }
}

proof fn lemma_listed_under(es: Seq<DebFileEntry>)
    ensures
        listed(es) =~= under(entry_components(es), entry_ids(es), Seq::empty()),
    decreases es.len(),
{
    if es.len() > 0 {
        lemma_listed_under(es.drop_last());
        assert(entry_components(es).drop_last() =~= entry_components(es.drop_last()));
        assert(entry_ids(es).drop_last() =~= entry_ids(es.drop_last()));
        let p = entry_components(es).last();
        assert(p.take(0) =~= Seq::<Seq<char>>::empty());
    }
}

/// The tree shows every listed file exactly once: the ids of its files are
/// the paths of the entries that have at least one path component, each as
/// often as it is listed.
pub proof fn law_tree_shows_every_file(nodes: Seq<TreeNode>, es: Seq<DebFileEntry>)
    requires
        tree_of(nodes, es),
    ensures
        leaves(nodes) =~= listed(es),
{
    let ps = entry_components(es);
    lemma_dir_names_bound(ps, Seq::empty());
    lemma_forest_leaves(nodes, ps, entry_ids(es), Seq::empty(), max_depth(ps));
    lemma_listed_under(es);
}

} // verus!
