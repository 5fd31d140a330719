//! The reconciliation engine.
//!
//! Three independent passes over the desired and the actual state compute
//! the action sets. The install pass adds every desired package that is
//! absent from the actual state, and every desired package whose installed
//! counterpart does not have all of its declared binaries present. The
//! update pass adds the desired descriptor of every installed package whose
//! desired version is strictly newer. The remove pass adds every installed
//! package whose name has no desired counterpart. Each pass can be skipped
//! independently; a skipped pass yields an empty list.
//!
//! The binary directory is handed in as the plain list of names present in
//! it, so the engine itself is pure and can be run against any state.

use vstd::prelude::*;

use crate::package::{ActionSet, ActionSetModel, Package, PackageModel};
use crate::version::version_newer;

verus! {

/// No two packages of the list share a name: the invariant of every state
/// list.
pub open spec fn unique_names(s: Seq<PackageModel>) -> bool {
    forall|i: int, j: int| 0 <= i < j < s.len() ==> s[i].name != s[j].name
}

/// Whether some package of the list has this name.
pub open spec fn has_pkg(s: Seq<PackageModel>, name: Seq<char>) -> bool {
    exists|i: int| 0 <= i < s.len() && s[i].name == name
}

/// The package of the list with this name.
pub open spec fn pkg_named(s: Seq<PackageModel>, name: Seq<char>) -> PackageModel
    recommends
        has_pkg(s, name),
{
    s[choose|i: int| 0 <= i < s.len() && s[i].name == name]
}

/// Whether a package's declared binaries are all present in the binary
/// directory. A package that declares no binaries never counts as present:
/// the check is conservative, as in the source package manager's record.
pub open spec fn bins_present(bins: Seq<Seq<char>>, available: Seq<Seq<char>>) -> bool {
    bins.len() > 0 && forall|i: int| 0 <= i < bins.len() ==> available.contains(bins[i])
}

/// The install pass acts on a desired package when the actual state has no
/// package of that name, or has one whose declared binaries are not all
/// present (an installed-but-broken package, reinstalled).
pub open spec fn needs_install(
    p: PackageModel,
    actual: Seq<PackageModel>,
    available: Seq<Seq<char>>,
) -> bool {
    !has_pkg(actual, p.name) || !bins_present(pkg_named(actual, p.name).bins, available)
}

/// The update pass acts on an installed package when the desired state has a
/// package of the same name with a strictly newer version.
pub open spec fn needs_update(a: PackageModel, desired: Seq<PackageModel>) -> bool {
    has_pkg(desired, a.name) && version_newer(pkg_named(desired, a.name).version, a.version)
}

/// The desired packages the install pass selects, in desired order.
pub open spec fn install_selected(
    desired: Seq<PackageModel>,
    actual: Seq<PackageModel>,
    available: Seq<Seq<char>>,
) -> Seq<PackageModel> {
    desired.filter(|p: PackageModel| needs_install(p, actual, available))
}

/// The desired descriptors the update pass selects, in actual order.
pub open spec fn update_selected(
    desired: Seq<PackageModel>,
    actual: Seq<PackageModel>,
) -> Seq<PackageModel> {
    actual.filter(|a: PackageModel| needs_update(a, desired)).map_values(
        |a: PackageModel| pkg_named(desired, a.name),
    )
}

/// The installed packages the remove pass selects, in actual order.
pub open spec fn remove_selected(
    desired: Seq<PackageModel>,
    actual: Seq<PackageModel>,
) -> Seq<PackageModel> {
    actual.filter(|a: PackageModel| !has_pkg(desired, a.name))
}

/// What `reconcile` returns: each pass's selection, or nothing for a skipped
/// pass.
pub open spec fn spec_reconcile(
    desired: Seq<PackageModel>,
    actual: Seq<PackageModel>,
    available: Seq<Seq<char>>,
    skip_install: bool,
    skip_update: bool,
    skip_remove: bool,
) -> ActionSetModel {
    ActionSetModel {
        to_install: if skip_install {
            Seq::empty()
        } else {
            install_selected(desired, actual, available)
        },
        to_update: if skip_update {
            Seq::empty()
        } else {
            update_selected(desired, actual)
        },
        to_remove: if skip_remove {
            Seq::empty()
        } else {
            remove_selected(desired, actual)
        },
    }
}

/// The position of the first package with this name, if any.
pub fn find_package_index(list: &Vec<Package>, name: &String) -> (r: Option<usize>)
    ensures
        r is Some <==> has_pkg(list.deep_view(), name@),
        r matches Some(k) ==> k < list.len() && list.deep_view()[k as int].name == name@,
{
    let mut k: usize = 0;
    while k < list.len()
        invariant
            k <= list.len(),
            forall|t: int| 0 <= t < k ==> list.deep_view()[t].name != name@,
        decreases list.len() - k,
    {
        proof {
            assert(list.deep_view()[k as int] == list@[k as int]@);
        }
        if list[k].name == *name {
            return Some(k);
        }
        k = k + 1;
    }
    None
}

/// Whether the list holds this string.
fn contains_string(list: &Vec<String>, s: &String) -> (r: bool)
    ensures
        r == list.deep_view().contains(s@),
{
    let mut k: usize = 0;
    while k < list.len()
        invariant
            k <= list.len(),
            forall|t: int| 0 <= t < k ==> list.deep_view()[t] != s@,
        decreases list.len() - k,
    {
        proof {
            assert(list.deep_view()[k as int] == list@[k as int]@);
        }
        if list[k] == *s {
            proof {
                assert(list.deep_view()[k as int] == s@);
            }
            return true;
        }
        k = k + 1;
    }
    false
}

/// Whether all declared binaries are present in the binary directory,
/// handed in as the plain list of names found there. A package declaring no
/// binaries never counts as verified by this check.
pub fn check_bins_installed(bins: &Vec<String>, available: &Vec<String>) -> (r: bool)
    ensures
        r == bins_present(bins.deep_view(), available.deep_view()),
{
    if bins.len() == 0 {
        return false;
    }
    let mut k: usize = 0;
    while k < bins.len()
        invariant
            k <= bins.len(),
            bins.len() > 0,
            forall|t: int| 0 <= t < k ==> available.deep_view().contains(bins.deep_view()[t]),
        decreases bins.len() - k,
    {
        if !contains_string(available, &bins[k]) {
            proof {
                assert(!available.deep_view().contains(bins.deep_view()[k as int]));
            }
            return false;
        }
        k = k + 1;
    }
    true
}

/// Compute the three action sets from the desired and the actual state.
///
/// `available_bins` is the list of names present in the binary directory.
/// The result is exactly [`spec_reconcile`] of the inputs: the same inputs
/// always select the same actions. The inputs are never changed; the lists
/// returned hold fresh copies of the descriptors.
pub fn reconcile(
    desired: &Vec<Package>,
    actual: &Vec<Package>,
    available_bins: &Vec<String>,
    skip_install: bool,
    skip_update: bool,
    skip_remove: bool,
) -> (r: ActionSet)
    requires
        unique_names(desired.deep_view()),
        unique_names(actual.deep_view()),
    ensures
        r@ == spec_reconcile(
            desired.deep_view(),
            actual.deep_view(),
            available_bins.deep_view(),
            skip_install,
            skip_update,
            skip_remove,
        ),
{
    let ghost dm = desired.deep_view();
    let ghost am = actual.deep_view();
    let ghost av = available_bins.deep_view();

    let mut to_install: Vec<Package> = Vec::new();
    let mut to_update: Vec<Package> = Vec::new();
    let mut to_remove: Vec<Package> = Vec::new();
    proof {
        broadcast use vstd::seq_lib::group_filter_ensures;

        assert(to_install.deep_view() =~= Seq::<PackageModel>::empty());
        assert(to_update.deep_view() =~= Seq::<PackageModel>::empty());
        assert(to_remove.deep_view() =~= Seq::<PackageModel>::empty());
        assert(dm.subrange(0, 0) =~= Seq::<PackageModel>::empty());
        assert(am.subrange(0, 0) =~= Seq::<PackageModel>::empty());
        reveal(Seq::filter);
    }

    if !skip_install {
        let mut di: usize = 0;
        while di < desired.len()
            invariant
                di <= desired.len(),
                dm == desired.deep_view(),
                am == actual.deep_view(),
                av == available_bins.deep_view(),
                dm.len() == desired.len(),
                unique_names(am),
                to_install.deep_view() == install_selected(dm.subrange(0, di as int), am, av),
            decreases desired.len() - di,
        {
            let ghost prefix = dm.subrange(0, di as int);
            let ghost next = dm.subrange(0, di as int + 1);
            proof {
                reveal(Seq::filter);
                assert(next.drop_last() =~= prefix);
                assert(next.last() == dm[di as int]);
                assert(dm[di as int] == desired@[di as int]@);
            }
            let p = &desired[di];
            let ghost old_sel = to_install.deep_view();
            let mut selected = false;
            match find_package_index(actual, &p.name) {
                None => {
                    selected = true;
                },
                Some(ai) => {
                    proof {
                        assert(am[ai as int] == pkg_named(am, p@.name)) by {
                            let ci = choose|i: int|
                                0 <= i < am.len() && am[i].name == p@.name;
                            assert(am[ci].name == p@.name);
                        }
                    }
                    if !check_bins_installed(&actual[ai].bins, available_bins) {
                        selected = true;
                    }
                },
            }
            if selected {
                to_install.push(p.clone());
                proof {
                    assert(to_install.deep_view() =~= old_sel.push(dm[di as int]));
                }
            }
            proof {
                assert(needs_install(dm[di as int], am, av) == selected);
                assert(install_selected(next, am, av) == if selected {
                    install_selected(prefix, am, av).push(dm[di as int])
                } else {
                    install_selected(prefix, am, av)
                });
            }
            di = di + 1;
        }
        proof {
            assert(dm.subrange(0, dm.len() as int) =~= dm);
        }
    }

    if !skip_update {
        let mut ai: usize = 0;
        while ai < actual.len()
            invariant
                ai <= actual.len(),
                dm == desired.deep_view(),
                am == actual.deep_view(),
                am.len() == actual.len(),
                unique_names(dm),
                to_update.deep_view() == update_selected(dm, am.subrange(0, ai as int)),
            decreases actual.len() - ai,
        {
            let ghost prefix = am.subrange(0, ai as int);
            let ghost next = am.subrange(0, ai as int + 1);
            proof {
                reveal(Seq::filter);
                assert(next.drop_last() =~= prefix);
                assert(next.last() == am[ai as int]);
                assert(am[ai as int] == actual@[ai as int]@);
            }
            let a = &actual[ai];
            let ghost old_sel = to_update.deep_view();
            match find_package_index(desired, &a.name) {
                None => {
                    proof {
                        assert(update_selected(dm, next) == update_selected(dm, prefix)) by {
                            assert(!needs_update(am[ai as int], dm));
                            assert(next.filter(|x: PackageModel| needs_update(x, dm))
                                == prefix.filter(|x: PackageModel| needs_update(x, dm)));
                        }
                    }
                },
                Some(pi) => {
                    proof {
                        assert(dm[pi as int] == pkg_named(dm, a@.name)) by {
                            let ci = choose|i: int|
                                0 <= i < dm.len() && dm[i].name == a@.name;
                            assert(dm[ci].name == a@.name);
                        }
                    }
                    if desired[pi].version.newer_than(&a.version) {
                        to_update.push(desired[pi].clone());
                        proof {
                            assert(to_update.deep_view() =~= old_sel.push(
                                pkg_named(dm, am[ai as int].name),
                            ));
                            assert(needs_update(am[ai as int], dm));
                            let f = |x: PackageModel| needs_update(x, dm);
                            assert(next.filter(f) == prefix.filter(f).push(am[ai as int]));
                            assert(update_selected(dm, next) =~= update_selected(
                                dm,
                                prefix,
                            ).push(pkg_named(dm, am[ai as int].name)));
                        }
                    } else {
                        proof {
                            assert(!needs_update(am[ai as int], dm));
                            let f = |x: PackageModel| needs_update(x, dm);
                            assert(next.filter(f) == prefix.filter(f));
                        }
                    }
                },
            }
            ai = ai + 1;
        }
        proof {
            assert(am.subrange(0, am.len() as int) =~= am);
        }
    }

    if !skip_remove {
        let mut ai: usize = 0;
        while ai < actual.len()
            invariant
                ai <= actual.len(),
                dm == desired.deep_view(),
                am == actual.deep_view(),
                am.len() == actual.len(),
                to_remove.deep_view() == remove_selected(dm, am.subrange(0, ai as int)),
            decreases actual.len() - ai,
        {
            let ghost prefix = am.subrange(0, ai as int);
            let ghost next = am.subrange(0, ai as int + 1);
            proof {
                reveal(Seq::filter);
                assert(next.drop_last() =~= prefix);
                assert(next.last() == am[ai as int]);
                assert(am[ai as int] == actual@[ai as int]@);
            }
            let a = &actual[ai];
            let ghost old_sel = to_remove.deep_view();
            match find_package_index(desired, &a.name) {
                None => {
                    to_remove.push(a.clone());
                    proof {
                        assert(to_remove.deep_view() =~= old_sel.push(am[ai as int]));
                        assert(!has_pkg(dm, am[ai as int].name));
                    }
                },
                Some(_) => {
                    proof {
                        assert(has_pkg(dm, am[ai as int].name));
                    }
                },
            }
            ai = ai + 1;
        }
        proof {
            assert(am.subrange(0, am.len() as int) =~= am);
        }
    }

    ActionSet { to_install, to_update, to_remove }
}

/// Filtering a list with an everywhere-false predicate selects nothing.
proof fn lemma_filter_none<A>(s: Seq<A>, pred: spec_fn(A) -> bool)
    requires
        forall|i: int| 0 <= i < s.len() ==> !pred(#[trigger] s[i]),
    ensures
        s.filter(pred) == Seq::<A>::empty(),
    decreases s.len(),
{
    reveal(Seq::filter);
    if s.len() > 0 {
        lemma_filter_none(s.drop_last(), pred);
    }
}

/// A filtered selection holds only elements of its source.
proof fn lemma_filter_elements<A>(s: Seq<A>, pred: spec_fn(A) -> bool)
    ensures
        forall|q: A| s.filter(pred).contains(q) ==> s.contains(q),
    decreases s.len(),
{
    reveal(Seq::filter);
    if s.len() > 0 {
        lemma_filter_elements(s.drop_last(), pred);
        assert forall|q: A| s.filter(pred).contains(q) implies s.contains(q) by {
            if s.drop_last().contains(q) {
                let i = choose|i: int| 0 <= i < s.drop_last().len() && s.drop_last()[i] == q;
                assert(s[i] == q);
            } else if pred(s.last()) && q == s.last() {
                assert(s[s.len() - 1] == q);
            }
        }
    }
}

/// Dropping the last package keeps the names unique.
proof fn lemma_unique_drop_last(s: Seq<PackageModel>)
    requires
        unique_names(s),
        s.len() > 0,
    ensures
        unique_names(s.drop_last()),
{
    assert forall|i: int, j: int|
        0 <= i < j < s.drop_last().len() implies s.drop_last()[i].name
        != s.drop_last()[j].name by {
        assert(s.drop_last()[i] == s[i]);
        assert(s.drop_last()[j] == s[j]);
    }
}

/// Under unique names, the package looked up by a member's name is that
/// member.
proof fn lemma_pkg_named_at(s: Seq<PackageModel>, i: int)
    requires
        unique_names(s),
        0 <= i < s.len(),
    ensures
        has_pkg(s, s[i].name),
        pkg_named(s, s[i].name) == s[i],
{
    assert(has_pkg(s, s[i].name));
    let ci = choose|c: int| 0 <= c < s.len() && s[c].name == s[i].name;
    if ci != i {
        if ci < i {
            assert(s[ci].name != s[i].name);
        } else {
            assert(s[i].name != s[ci].name);
        }
    }
}

/// A successful lookup returns a member of the list carrying the looked-up
/// name.
proof fn lemma_pkg_named_props(s: Seq<PackageModel>, n: Seq<char>)
    requires
        has_pkg(s, n),
    ensures
        s.contains(pkg_named(s, n)),
        pkg_named(s, n).name == n,
{
    let i = choose|i: int| 0 <= i < s.len() && s[i].name == n;
    assert(s[i] == pkg_named(s, n));
}

/// A name is found in a list exactly when it is found before the last
/// position or at it.
proof fn lemma_has_pkg_drop_last(s: Seq<PackageModel>, n: Seq<char>)
    requires
        s.len() > 0,
    ensures
        has_pkg(s, n) <==> (has_pkg(s.drop_last(), n) || s.last().name == n),
{
    if has_pkg(s, n) {
        let i = choose|i: int| 0 <= i < s.len() && s[i].name == n;
        if i < s.len() - 1 {
            assert(s.drop_last()[i] == s[i]);
            assert(has_pkg(s.drop_last(), n));
        }
    }
    if has_pkg(s.drop_last(), n) {
        let i = choose|i: int| 0 <= i < s.drop_last().len() && s.drop_last()[i].name == n;
        assert(s[i] == s.drop_last()[i]);
        assert(has_pkg(s, n));
    }
    if s.last().name == n {
        assert(s[s.len() - 1].name == n);
        assert(has_pkg(s, n));
    }
}

/// Under unique names, a lookup that succeeds before the last position is
/// unchanged by dropping it.
proof fn lemma_pkg_named_drop_last(s: Seq<PackageModel>, n: Seq<char>)
    requires
        unique_names(s),
        s.len() > 0,
        has_pkg(s.drop_last(), n),
    ensures
        has_pkg(s, n),
        pkg_named(s, n) == pkg_named(s.drop_last(), n),
{
    let i = choose|i: int| 0 <= i < s.drop_last().len() && s.drop_last()[i].name == n;
    assert(s.drop_last()[i] == s[i]);
    lemma_unique_drop_last(s);
    lemma_pkg_named_at(s, i);
    lemma_pkg_named_at(s.drop_last(), i);
}

/// Reconciliation is idempotent: when the desired and the actual state are
/// the same list and every package's declared binaries are present, all
/// three action sets are empty.
pub proof fn lemma_reconcile_idempotent(s: Seq<PackageModel>, available: Seq<Seq<char>>)
    requires
        unique_names(s),
        forall|i: int| 0 <= i < s.len() ==> bins_present(#[trigger] s[i].bins, available),
    ensures
        spec_reconcile(s, s, available, false, false, false) == (ActionSetModel {
            to_install: Seq::<PackageModel>::empty(),
            to_update: Seq::<PackageModel>::empty(),
            to_remove: Seq::<PackageModel>::empty(),
        }),
{
    assert forall|i: int| 0 <= i < s.len() implies !needs_install(
        #[trigger] s[i],
        s,
        available,
    ) by {
        lemma_pkg_named_at(s, i);
    }
    lemma_filter_none(s, |p: PackageModel| needs_install(p, s, available));

    assert forall|i: int| 0 <= i < s.len() implies !needs_update(#[trigger] s[i], s) by {
        lemma_pkg_named_at(s, i);
    }
    lemma_filter_none(s, |a: PackageModel| needs_update(a, s));
    assert(update_selected(s, s) =~= Seq::<PackageModel>::empty());

    assert forall|i: int| 0 <= i < s.len() implies !(!has_pkg(s, #[trigger] s[i].name)) by {
        lemma_pkg_named_at(s, i);
    }
    lemma_filter_none(s, |a: PackageModel| !has_pkg(s, a.name));
}

/// Reconciliation is deterministic: the action sets are a function of the
/// inputs alone, so any two results of the contract on the same inputs hold
/// the same packages.
pub proof fn lemma_reconcile_deterministic(
    desired: Seq<PackageModel>,
    actual: Seq<PackageModel>,
    available: Seq<Seq<char>>,
    skip_install: bool,
    skip_update: bool,
    skip_remove: bool,
    first: ActionSetModel,
    second: ActionSetModel,
)
    requires
        first == spec_reconcile(desired, actual, available, skip_install, skip_update, skip_remove),
        second == spec_reconcile(
            desired,
            actual,
            available,
            skip_install,
            skip_update,
            skip_remove,
        ),
    ensures
        first == second,
{
}

/// A desired package is selected for update exactly when the actual state
/// has a package of its name and the desired version is strictly newer;
/// an equal or lower desired version never triggers an update.
pub proof fn lemma_update_membership(desired: Seq<PackageModel>, actual: Seq<PackageModel>)
    requires
        unique_names(desired),
        unique_names(actual),
    ensures
        forall|q: PackageModel| #![trigger update_selected(desired, actual).contains(q)]
            update_selected(desired, actual).contains(q) <==> (desired.contains(q) && has_pkg(
                actual,
                q.name,
            ) && version_newer(q.version, pkg_named(actual, q.name).version)),
    decreases actual.len(),
{
    reveal(Seq::filter);
    let f = |a: PackageModel| needs_update(a, desired);
    let g = |a: PackageModel| pkg_named(desired, a.name);
    if actual.len() == 0 {
        assert forall|q: PackageModel| !update_selected(desired, actual).contains(q) by {
            assert(actual.filter(f).len() == 0);
        }
    } else {
        let a0 = actual.drop_last();
        let x = actual.last();
        lemma_unique_drop_last(actual);
        lemma_update_membership(desired, a0);
        if f(x) {
            assert(update_selected(desired, actual) =~= update_selected(desired, a0).push(g(x)));
        } else {
            assert(update_selected(desired, actual) =~= update_selected(desired, a0));
        }
        assert forall|q: PackageModel|
            update_selected(desired, actual).contains(q) <==> (desired.contains(q) && has_pkg(
                actual,
                q.name,
            ) && version_newer(q.version, pkg_named(actual, q.name).version)) by {
            let sel0 = update_selected(desired, a0);
            let sel = update_selected(desired, actual);
            // membership through the push
            if f(x) {
                assert(sel.contains(q) <==> (sel0.contains(q) || q == g(x))) by {
                    if sel0.contains(q) {
                        let i = choose|i: int| 0 <= i < sel0.len() && sel0[i] == q;
                        assert(sel[i] == q);
                    }
                    if q == g(x) {
                        assert(sel[sel.len() - 1] == q);
                    }
                    if sel.contains(q) {
                        let i = choose|i: int| 0 <= i < sel.len() && sel[i] == q;
                        if i < sel.len() - 1 {
                            assert(sel0[i] == q);
                        }
                    }
                }
            } else {
                assert(sel.contains(q) <==> sel0.contains(q));
            }
            lemma_has_pkg_drop_last(actual, q.name);
            if x.name == q.name {
                // the last package's name cannot also occur earlier
                assert(!has_pkg(a0, q.name)) by {
                    if has_pkg(a0, q.name) {
                        let i = choose|i: int| 0 <= i < a0.len() && a0[i].name == q.name;
                        assert(actual[i] == a0[i]);
                        assert(actual[i].name != actual[actual.len() - 1].name);
                    }
                }
                lemma_pkg_named_at(actual, actual.len() - 1);
                if f(x) && q == g(x) {
                    lemma_pkg_named_props(desired, x.name);
                    assert(desired.contains(q));
                }
                if desired.contains(q) && version_newer(q.version, x.version) {
                    let i = choose|i: int| 0 <= i < desired.len() && desired[i] == q;
                    lemma_pkg_named_at(desired, i);
                    assert(f(x) && q == g(x));
                }
            } else {
                // a selected desired descriptor carries the matched name
                if f(x) {
                    lemma_pkg_named_props(desired, x.name);
                    assert(q != g(x));
                }
                assert(has_pkg(actual, q.name) == has_pkg(a0, q.name));
                if f(x) {
                    assert(sel.contains(q) <==> (sel0.contains(q) || q == g(x)));
                    assert(q != g(x));
                    assert(sel.contains(q) <==> sel0.contains(q));
                } else {
                    assert(sel.contains(q) <==> sel0.contains(q));
                }
                assert(sel0.contains(q) <==> (desired.contains(q) && has_pkg(a0, q.name)
                    && version_newer(q.version, pkg_named(a0, q.name).version)));
                if has_pkg(a0, q.name) {
                    lemma_pkg_named_drop_last(actual, q.name);
                    assert(pkg_named(actual, q.name) == pkg_named(a0, q.name));
                }
                assert(sel.contains(q) <==> (desired.contains(q) && has_pkg(actual, q.name)
                    && version_newer(q.version, pkg_named(actual, q.name).version)));
            }
            assert(sel.contains(q) <==> (desired.contains(q) && has_pkg(actual, q.name)
                && version_newer(q.version, pkg_named(actual, q.name).version)));
        }
    }
}

/// Remove completeness: every installed package whose name has no desired
/// counterpart is selected for removal, and everything selected is such an
/// installed package.
pub proof fn lemma_remove_membership(desired: Seq<PackageModel>, actual: Seq<PackageModel>)
    ensures
        forall|i: int|
            0 <= i < actual.len() && !has_pkg(desired, #[trigger] actual[i].name)
                ==> remove_selected(desired, actual).contains(actual[i]),
        forall|q: PackageModel|
            remove_selected(desired, actual).contains(q) ==> actual.contains(q) && !has_pkg(
                desired,
                q.name,
            ),
{
    broadcast use vstd::seq_lib::group_filter_ensures;

    let pred = |a: PackageModel| !has_pkg(desired, a.name);
    lemma_filter_elements(actual, pred);
    assert forall|i: int|
        0 <= i < actual.len() && !has_pkg(desired, #[trigger] actual[i].name)
        implies remove_selected(desired, actual).contains(actual[i]) by {
        assert(pred(actual[i]));
        actual.lemma_filter_contains(pred, i);
    }
    assert forall|q: PackageModel|
        remove_selected(desired, actual).contains(q) implies actual.contains(q) && !has_pkg(
        desired,
        q.name,
    ) by {
        let i = choose|i: int|
            0 <= i < actual.filter(pred).len() && actual.filter(pred)[i] == q;
        actual.lemma_filter_pred(pred, i);
    }
}

/// Broken-binary reinstall: an installed package matched by name in the
/// desired state whose declared binaries are not all present puts the
/// desired descriptor into the install selection.
pub proof fn lemma_broken_binary_reinstall(
    desired: Seq<PackageModel>,
    actual: Seq<PackageModel>,
    available: Seq<Seq<char>>,
    di: int,
    ai: int,
)
    requires
        unique_names(actual),
        0 <= di < desired.len(),
        0 <= ai < actual.len(),
        desired[di].name == actual[ai].name,
        !bins_present(actual[ai].bins, available),
    ensures
        install_selected(desired, actual, available).contains(desired[di]),
{
    broadcast use vstd::seq_lib::group_filter_ensures;

    lemma_pkg_named_at(actual, ai);
    let pred = |p: PackageModel| needs_install(p, actual, available);
    assert(pred(desired[di]));
    desired.lemma_filter_contains(pred, di);
}

/// Skip flags: each skipped pass yields an empty list, whatever the diff
/// would have selected.
pub proof fn lemma_skip_flags(
    desired: Seq<PackageModel>,
    actual: Seq<PackageModel>,
    available: Seq<Seq<char>>,
    skip_install: bool,
    skip_update: bool,
    skip_remove: bool,
)
    ensures
        skip_install ==> spec_reconcile(
            desired,
            actual,
            available,
            skip_install,
            skip_update,
            skip_remove,
        ).to_install == Seq::<PackageModel>::empty(),
        skip_update ==> spec_reconcile(
            desired,
            actual,
            available,
            skip_install,
            skip_update,
            skip_remove,
        ).to_update == Seq::<PackageModel>::empty(),
        skip_remove ==> spec_reconcile(
            desired,
            actual,
            available,
            skip_install,
            skip_update,
            skip_remove,
        ).to_remove == Seq::<PackageModel>::empty(),
{
}

} // verus!
