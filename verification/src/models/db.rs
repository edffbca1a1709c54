//! The list of packages installed through the installer.
use vstd::prelude::*;
use vstd::std_specs::iter::IteratorSpec;

use crate::models::package::InstalledPackage;
use crate::text::str_eq;

verus! {

broadcast use vstd::std_specs::vec::group_vec_axioms;

/// The list with every package called `name` left out, order kept.
pub open spec fn without_name(s: Seq<InstalledPackage>, name: Seq<char>) -> Seq<InstalledPackage>
    decreases s.len(),
{
    if s.len() == 0 {
        s
    } else if s.last().name@ == name {
        without_name(s.drop_last(), name)
    } else {
        without_name(s.drop_last(), name).push(s.last())
    }
}

/// The list after recording `pkg`: an earlier record of the same name is
/// replaced, and the new record comes last.
pub open spec fn with_package(s: Seq<InstalledPackage>, pkg: InstalledPackage) -> Seq<
    InstalledPackage,
> {
    without_name(s, pkg.name@).push(pkg)
}

/// No package called `name` is left, and every package left was in the list.
pub proof fn lemma_without_name(s: Seq<InstalledPackage>, name: Seq<char>)
    ensures
        forall|i: int|
            0 <= i < without_name(s, name).len() ==> (#[trigger] without_name(s, name)[i]).name@
                != name,
        forall|i: int|
            0 <= i < without_name(s, name).len() ==> s.contains(#[trigger] without_name(s, name)[i]),
        without_name(s, name).len() <= s.len(),
    decreases s.len(),
{
    if s.len() > 0 {
        lemma_without_name(s.drop_last(), name);
        let r = without_name(s.drop_last(), name);
        assert forall|i: int| 0 <= i < r.len() implies s.contains(#[trigger] r[i]) by {
            let j = choose|j: int| 0 <= j < s.drop_last().len() && s.drop_last()[j] == r[i];
            assert(s[j] == r[i]);
        }
        if s.last().name@ != name {
            assert(s[s.len() - 1] == s.last());
        }
    }
}

/// Leaving out a name that no package has changes nothing.
pub proof fn lemma_without_absent_name(s: Seq<InstalledPackage>, name: Seq<char>)
    requires
        forall|i: int| 0 <= i < s.len() ==> (#[trigger] s[i]).name@ != name,
    ensures
        without_name(s, name) == s,
    decreases s.len(),
{
    if s.len() > 0 {
        lemma_without_absent_name(s.drop_last(), name);
        assert(s.drop_last().push(s.last()) =~= s);
    }
}

/// Removing a package forgets it: no package of that name is left, the
/// other packages stay in their order, and removing it again changes
/// nothing.
pub proof fn law_remove_forgets(s: Seq<InstalledPackage>, name: Seq<char>)
    ensures
        forall|i: int|
            0 <= i < without_name(s, name).len() ==> (#[trigger] without_name(s, name)[i]).name@
                != name,
        forall|i: int|
            0 <= i < without_name(s, name).len() ==> s.contains(#[trigger] without_name(s, name)[i]),
        without_name(without_name(s, name), name) == without_name(s, name),
{
    lemma_without_name(s, name);
    lemma_without_absent_name(without_name(s, name), name);
}

/// After a package is recorded it is the last record and the only one with
/// its name; recording it again changes nothing.
pub proof fn law_add_records_once(s: Seq<InstalledPackage>, pkg: InstalledPackage)
    ensures
        with_package(s, pkg).last() == pkg,
        forall|i: int|
            0 <= i < with_package(s, pkg).len() - 1 ==> (#[trigger] with_package(s, pkg)[i]).name@
                != pkg.name@,
        with_package(with_package(s, pkg), pkg) == with_package(s, pkg),
{
    let r = without_name(s, pkg.name@);
    lemma_without_name(s, pkg.name@);
    assert forall|i: int| 0 <= i < with_package(s, pkg).len() - 1 implies (#[trigger] with_package(
        s,
        pkg,
    )[i]).name@ != pkg.name@ by {
        assert(with_package(s, pkg)[i] == r[i]);
    }
    lemma_without_absent_name(r, pkg.name@);
    assert(r.push(pkg).drop_last() =~= r);
}

/// Removing a package undoes recording it: the list is the one before the
/// record was added, with that name left out.
pub proof fn law_remove_undoes_add(s: Seq<InstalledPackage>, pkg: InstalledPackage)
    ensures
        without_name(with_package(s, pkg), pkg.name@) == without_name(s, pkg.name@),
{
    let r = without_name(s, pkg.name@);
    lemma_without_name(s, pkg.name@);
    lemma_without_absent_name(r, pkg.name@);
    assert(r.push(pkg).drop_last() =~= r);
}

/// Removing two different packages gives the same list in either order.
pub proof fn law_removals_commute(s: Seq<InstalledPackage>, name: Seq<char>, other: Seq<char>)
    requires
        name != other,
    ensures
        without_name(without_name(s, name), other) == without_name(without_name(s, other), name),
    decreases s.len(),
{
    if s.len() > 0 {
        law_removals_commute(s.drop_last(), name, other);
        let x = s.last();
        let a = without_name(s.drop_last(), name);
        let b = without_name(s.drop_last(), other);
        if x.name@ != name {
            assert(a.push(x).drop_last() =~= a);
        }
        if x.name@ != other {
            assert(b.push(x).drop_last() =~= b);
        }
        if x.name@ != name && x.name@ != other {
            assert(without_name(a, other).push(x).drop_last() =~= without_name(a, other));
            assert(without_name(b, name).push(x).drop_last() =~= without_name(b, name));
        }
    }
}

/// The packages of the list, `name` left out.
fn retain_other(packages: Vec<InstalledPackage>, name: &str) -> (r: Vec<InstalledPackage>)
    ensures
        r@ == without_name(packages@, name@),
{
    let ghost all = packages@;
    let mut out: Vec<InstalledPackage> = Vec::new();
    for p in it: packages
        invariant
            it.seq() == all,
            out@ == without_name(all.take(it.index()), name@),
    {
        assert(all.take(it.index() + 1).drop_last() =~= all.take(it.index()));
        if !str_eq(p.name.as_str(), name) {
            out.push(p);
        }
    }
    assert(all.take(all.len() as int) =~= all);
    out
}

/// Forgets the package called `name`.
pub fn remove_package(packages: &mut Vec<InstalledPackage>, name: &str)
    ensures
        final(packages)@ == without_name(old(packages)@, name@),
{
    let mut all: Vec<InstalledPackage> = Vec::new();
    std::mem::swap(&mut all, packages);
    let kept = retain_other(all, name);
    *packages = kept;
}

/// Records `pkg`, replacing an earlier record of the same name.
pub fn add_package(packages: &mut Vec<InstalledPackage>, pkg: InstalledPackage)
    ensures
        final(packages)@ == with_package(old(packages)@, pkg),
{
    let mut all: Vec<InstalledPackage> = Vec::new();
    std::mem::swap(&mut all, packages);
    let mut kept = retain_other(all, pkg.name.as_str());
    kept.push(pkg);
    *packages = kept;
}

} // verus!
