//! The reconciler: after packages were installed or updated, the manifest's
//! recorded constraints follow what is installed.

use vstd::prelude::*;
use crate::dependency::{
    dependency_views, package_views, Dependency, DependencyView, Package, PackageView,
};
use crate::manifest::{
    copy_dependencies, group_views, lists_name, Group, GroupView, Manifest, ManifestView,
};

verus! {

/// The list without the dependencies of that name, the others in their order.
pub open spec fn without_name(list: Seq<DependencyView>, name: Seq<char>) -> Seq<DependencyView>
    decreases list.len(),
{
    if list.len() == 0 {
        Seq::empty()
    } else {
        let earlier = without_name(list.drop_last(), name);
        if list.last().name == name {
            earlier
        } else {
            earlier.push(list.last())
        }
    }
}

/// The list after one installed package is taken into account. Where the list
/// declares a dependency of the package's name, every entry of that name is
/// removed and one entry that pins the installed version is appended; a list
/// that does not declare the package is left untouched.
pub open spec fn pinned(list: Seq<DependencyView>, package: PackageView) -> Seq<DependencyView> {
    if lists_name(list, package.name) {
        without_name(list, package.name).push(package.pin())
    } else {
        list
    }
}

/// The list after every installed package is taken into account, in the
/// order in which the packages are reported.
pub open spec fn reconciled_list(list: Seq<DependencyView>, installed: Seq<PackageView>) -> Seq<
    DependencyView,
>
    decreases installed.len(),
{
    if installed.len() == 0 {
        list
    } else {
        pinned(reconciled_list(list, installed.drop_last()), installed.last())
    }
}

/// The groups with each group's list reconciled; every group keeps its name
/// and its place.
pub open spec fn reconciled_groups(groups: Seq<GroupView>, installed: Seq<PackageView>) -> Seq<
    GroupView,
> {
    Seq::new(
        groups.len(),
        |g: int|
            GroupView {
                name: groups[g].name,
                dependencies: reconciled_list(groups[g].dependencies, installed),
            },
    )
}

/// The manifest after reconciliation: the required list and the list of every
/// optional group reconciled, each on its own. A structure that the manifest
/// does not expose stays absent.
pub open spec fn reconciled(manifest: ManifestView, installed: Seq<PackageView>) -> ManifestView {
    ManifestView {
        required: match manifest.required {
            Some(list) => Some(reconciled_list(list, installed)),
            None => None,
        },
        optional: match manifest.optional {
            Some(groups) => Some(reconciled_groups(groups, installed)),
            None => None,
        },
    }
}

/// Whether the list declares a dependency of the package's name.
pub fn lists_package(list: &Vec<Dependency>, package: &Package) -> (found: bool)
    ensures
        found == lists_name(dependency_views(list@), package@.name),
{
    let mut i: usize = 0;
    while i < list.len()
        invariant
            i <= list.len(),
            forall|j: int| 0 <= j < i ==> dependency_views(list@)[j].name != package@.name,
        decreases list.len() - i,
    {
        if list[i].names(package) {
            assert(dependency_views(list@)[i as int].name == package@.name);
            return true;
        }
        i += 1;
    }
    false
}

/// Takes one installed package into account.
pub fn pin_installed(list: Vec<Dependency>, package: &Package) -> (updated: Vec<Dependency>)
    ensures
        dependency_views(updated@) == pinned(dependency_views(list@), package@),
{
    if !lists_package(&list, package) {
        return list;
    }
    let mut updated: Vec<Dependency> = Vec::new();
    let mut i: usize = 0;
    proof {
        assert(dependency_views(list@).take(0) =~= Seq::<DependencyView>::empty());
        assert(dependency_views(updated@) =~= Seq::<DependencyView>::empty());
    }
    while i < list.len()
        invariant
            i <= list.len(),
            dependency_views(updated@) == without_name(
                dependency_views(list@).take(i as int),
                package@.name,
            ),
        decreases list.len() - i,
    {
        proof {
            let next = dependency_views(list@).take(i + 1);
            assert(next.drop_last() =~= dependency_views(list@).take(i as int));
            assert(next.last() == list@[i as int]@);
        }
        if !list[i].names(package) {
            let kept = list[i].clone();
            assert(dependency_views(updated@.push(kept)) =~= dependency_views(updated@).push(
                kept@,
            ));
            updated.push(kept);
        }
        i += 1;
    }
    let pin = package.pin();
    proof {
        assert(dependency_views(list@).take(i as int) =~= dependency_views(list@));
        assert(dependency_views(updated@.push(pin)) =~= dependency_views(updated@).push(pin@));
    }
    updated.push(pin);
    updated
}

/// Reconciles one list with the installed packages.
pub fn reconcile_list(list: &Vec<Dependency>, installed: &[Package]) -> (updated: Vec<Dependency>)
    ensures
        dependency_views(updated@) == reconciled_list(
            dependency_views(list@),
            package_views(installed@),
        ),
{
    let mut updated = copy_dependencies(list);
    let mut k: usize = 0;
    assert(package_views(installed@).take(0) =~= Seq::<PackageView>::empty());
    while k < installed.len()
        invariant
            k <= installed.len(),
            dependency_views(updated@) == reconciled_list(
                dependency_views(list@),
                package_views(installed@).take(k as int),
            ),
        decreases installed.len() - k,
    {
        proof {
            let next = package_views(installed@).take(k + 1);
            assert(next.drop_last() =~= package_views(installed@).take(k as int));
            assert(next.last() == installed@[k as int]@);
        }
        updated = pin_installed(updated, &installed[k]);
        k += 1;
    }
    assert(package_views(installed@).take(k as int) =~= package_views(installed@));
    updated
}

/// Reconciles the manifest with the installed packages and hands back the new
/// snapshot. Whether it differs from the old one is for the caller to test.
pub fn reconcile(manifest: &Manifest, installed: &[Package]) -> (updated: Manifest)
    ensures
        updated@ == reconciled(manifest@, package_views(installed@)),
{
    let required = match &manifest.required {
        Some(list) => Some(reconcile_list(list, installed)),
        None => None,
    };
    let optional = match &manifest.optional {
        Some(groups) => {
            let mut updated: Vec<Group> = Vec::new();
            let mut g: usize = 0;
            while g < groups.len()
                invariant
                    g <= groups.len(),
                    updated.len() == g,
                    forall|k: int|
                        0 <= k < g ==> (#[trigger] updated@[k])@ == reconciled_groups(
                            group_views(groups@),
                            package_views(installed@),
                        )[k],
                decreases groups.len() - g,
            {
                let group = &groups[g];
                updated.push(
                    Group {
                        name: group.name.clone(),
                        dependencies: reconcile_list(&group.dependencies, installed),
                    },
                );
                g += 1;
            }
            assert(group_views(updated@) =~= reconciled_groups(
                group_views(groups@),
                package_views(installed@),
            ));
            Some(updated)
        },
        None => None,
    };
    Manifest { required, optional }
}

/// Whether a package of that name is among the installed ones.
pub open spec fn has_package(installed: Seq<PackageView>, name: Seq<char>) -> bool {
    exists|k: int| 0 <= k < installed.len() && (#[trigger] installed[k]).name == name
}

/// The dependencies of the list whose names are not installed, in their
/// order: what reconciliation leaves in place.
pub open spec fn untouched(list: Seq<DependencyView>, installed: Seq<PackageView>) -> Seq<
    DependencyView,
>
    decreases installed.len(),
{
    if installed.len() == 0 {
        list
    } else {
        without_name(untouched(list, installed.drop_last()), installed.last().name)
    }
}

/// The pins that reconciliation appends: one for each installed name that
/// the list declares, of the version reported last, in the order in which the
/// names are reported last.
pub open spec fn pins(list: Seq<DependencyView>, installed: Seq<PackageView>) -> Seq<
    DependencyView,
>
    decreases installed.len(),
{
    if installed.len() == 0 {
        Seq::empty()
    } else {
        let earlier = pins(list, installed.drop_last());
        if lists_name(list, installed.last().name) {
            without_name(earlier, installed.last().name).push(installed.last().pin())
        } else {
            earlier
        }
    }
}

proof fn lemma_without_name_concat(
    front: Seq<DependencyView>,
    back: Seq<DependencyView>,
    name: Seq<char>,
)
    ensures
        without_name(front + back, name) == without_name(front, name) + without_name(back, name),
    decreases back.len(),
{
    if back.len() == 0 {
        assert(front + back =~= front);
        assert(without_name(front, name) + without_name(back, name) =~= without_name(front, name));
    } else {
        lemma_without_name_concat(front, back.drop_last(), name);
        assert((front + back).drop_last() =~= front + back.drop_last());
        assert((front + back).last() == back.last());
        assert(without_name(front + back, name) =~= without_name(front, name) + without_name(
            back,
            name,
        ));
    }
}

/// Removing a name removes that name and no other.
proof fn lemma_without_name_lists(list: Seq<DependencyView>, name: Seq<char>, other: Seq<char>)
    ensures
        lists_name(without_name(list, name), other) == (other != name && lists_name(list, other)),
    decreases list.len(),
{
    if list.len() > 0 {
        let front = list.drop_last();
        let earlier = without_name(front, name);
        let result = without_name(list, name);
        lemma_without_name_lists(front, name, other);
        if lists_name(result, other) {
            let i = choose|i: int| 0 <= i < result.len() && (#[trigger] result[i]).name == other;
            if i < earlier.len() {
                assert(earlier[i].name == other);
                let j = choose|j: int| 0 <= j < front.len() && (#[trigger] front[j]).name == other;
                assert(list[j].name == other);
            } else {
                assert(list[list.len() - 1].name == other);
            }
        }
        if other != name && lists_name(list, other) {
            let j = choose|j: int| 0 <= j < list.len() && (#[trigger] list[j]).name == other;
            if j < front.len() {
                assert(front[j].name == other);
                let i = choose|i: int|
                    0 <= i < earlier.len() && (#[trigger] earlier[i]).name == other;
                assert(result[i].name == other);
            } else {
                assert(result[result.len() - 1].name == other);
            }
        }
    }
}

/// Removing a name that the list does not hold changes nothing.
proof fn lemma_without_name_absent(list: Seq<DependencyView>, name: Seq<char>)
    requires
        !lists_name(list, name),
    ensures
        without_name(list, name) == list,
    decreases list.len(),
{
    if list.len() > 0 {
        let front = list.drop_last();
        assert(list[list.len() - 1].name != name);
        assert forall|i: int| 0 <= i < front.len() implies (#[trigger] front[i]).name != name by {
            assert(list[i].name != name);
        }
        lemma_without_name_absent(front, name);
        assert(without_name(list, name) =~= list);
    } else {
        assert(without_name(list, name) =~= list);
    }
}

/// Reconciliation changes no list's set of names.
pub proof fn lemma_reconciled_list_names(
    list: Seq<DependencyView>,
    installed: Seq<PackageView>,
    name: Seq<char>,
)
    ensures
        lists_name(reconciled_list(list, installed), name) == lists_name(list, name),
    decreases installed.len(),
{
    if installed.len() > 0 {
        let earlier = reconciled_list(list, installed.drop_last());
        let package = installed.last();
        lemma_reconciled_list_names(list, installed.drop_last(), name);
        if lists_name(earlier, package.name) {
            let kept = without_name(earlier, package.name);
            let result = kept.push(package.pin());
            lemma_without_name_lists(earlier, package.name, name);
            if lists_name(result, name) {
                let i = choose|i: int| 0 <= i < result.len() && (#[trigger] result[i]).name == name;
                if i < kept.len() {
                    assert(kept[i].name == name);
                }
            }
            if lists_name(earlier, name) {
                if name == package.name {
                    assert(result[result.len() - 1].name == name);
                } else {
                    let i = choose|i: int| 0 <= i < kept.len() && (#[trigger] kept[i]).name == name;
                    assert(result[i].name == name);
                }
            }
        }
    }
}

/// What is left in place holds exactly the names of the list that are not
/// installed.
proof fn lemma_untouched_lists(
    list: Seq<DependencyView>,
    installed: Seq<PackageView>,
    name: Seq<char>,
)
    ensures
        lists_name(untouched(list, installed), name) == (lists_name(list, name) && !has_package(
            installed,
            name,
        )),
    decreases installed.len(),
{
    if installed.len() > 0 {
        let front = installed.drop_last();
        lemma_untouched_lists(list, front, name);
        lemma_without_name_lists(untouched(list, front), installed.last().name, name);
        if has_package(installed, name) {
            let k = choose|k: int|
                0 <= k < installed.len() && (#[trigger] installed[k]).name == name;
            if k < front.len() {
                assert(front[k].name == name);
            }
        }
        if has_package(front, name) {
            let k = choose|k: int| 0 <= k < front.len() && (#[trigger] front[k]).name == name;
            assert(installed[k].name == name);
        }
        if name == installed.last().name {
            assert(installed[installed.len() - 1].name == name);
        }
    }
}

/// Every pin bears an installed name.
proof fn lemma_pins_lists(list: Seq<DependencyView>, installed: Seq<PackageView>, name: Seq<char>)
    requires
        lists_name(pins(list, installed), name),
    ensures
        has_package(installed, name),
    decreases installed.len(),
{
    if installed.len() > 0 {
        let front = installed.drop_last();
        let earlier = pins(list, front);
        let package = installed.last();
        let result = pins(list, installed);
        let found_earlier = if lists_name(list, package.name) {
            let kept = without_name(earlier, package.name);
            let i = choose|i: int| 0 <= i < result.len() && (#[trigger] result[i]).name == name;
            if i < kept.len() {
                assert(kept[i].name == name);
                lemma_without_name_lists(earlier, package.name, name);
                true
            } else {
                assert(installed[installed.len() - 1].name == name);
                false
            }
        } else {
            true
        };
        if found_earlier {
            lemma_pins_lists(list, front, name);
            let k = choose|k: int| 0 <= k < front.len() && (#[trigger] front[k]).name == name;
            assert(installed[k].name == name);
        }
    }
}

/// The pins depend on the list only through the names that it holds.
proof fn lemma_pins_by_names(
    left: Seq<DependencyView>,
    right: Seq<DependencyView>,
    installed: Seq<PackageView>,
)
    requires
        forall|name: Seq<char>| lists_name(left, name) == lists_name(right, name),
    ensures
        pins(left, installed) == pins(right, installed),
    decreases installed.len(),
{
    if installed.len() > 0 {
        lemma_pins_by_names(left, right, installed.drop_last());
    }
}

proof fn lemma_untouched_concat(
    front: Seq<DependencyView>,
    back: Seq<DependencyView>,
    installed: Seq<PackageView>,
)
    ensures
        untouched(front + back, installed) == untouched(front, installed) + untouched(
            back,
            installed,
        ),
    decreases installed.len(),
{
    if installed.len() > 0 {
        let rest = installed.drop_last();
        lemma_untouched_concat(front, back, rest);
        lemma_without_name_concat(
            untouched(front, rest),
            untouched(back, rest),
            installed.last().name,
        );
    }
}

/// A list that holds no installed name is left in place as a whole.
proof fn lemma_untouched_absent(list: Seq<DependencyView>, installed: Seq<PackageView>)
    requires
        forall|name: Seq<char>| has_package(installed, name) ==> !lists_name(list, name),
    ensures
        untouched(list, installed) == list,
    decreases installed.len(),
{
    if installed.len() > 0 {
        let rest = installed.drop_last();
        assert forall|name: Seq<char>| has_package(rest, name) implies !lists_name(list, name) by {
            let k = choose|k: int| 0 <= k < rest.len() && (#[trigger] rest[k]).name == name;
            assert(installed[k].name == name);
        }
        lemma_untouched_absent(list, rest);
        assert(installed[installed.len() - 1].name == installed.last().name);
        lemma_without_name_absent(list, installed.last().name);
    }
}

/// Of a list that holds installed names only, nothing is left in place.
proof fn lemma_untouched_installed(list: Seq<DependencyView>, installed: Seq<PackageView>)
    requires
        forall|name: Seq<char>| lists_name(list, name) ==> has_package(installed, name),
    ensures
        untouched(list, installed) == Seq::<DependencyView>::empty(),
{
    let left = untouched(list, installed);
    if left.len() > 0 {
        let name = left[0].name;
        assert(lists_name(left, name));
        lemma_untouched_lists(list, installed, name);
    }
    assert(left =~= Seq::<DependencyView>::empty());
}

/// A reconciled list is what was left in place, followed by the pins.
pub proof fn lemma_reconciled_list_parts(list: Seq<DependencyView>, installed: Seq<PackageView>)
    ensures
        reconciled_list(list, installed) == untouched(list, installed) + pins(list, installed),
    decreases installed.len(),
{
    if installed.len() == 0 {
        assert(untouched(list, installed) + pins(list, installed) =~= list);
    } else {
        let rest = installed.drop_last();
        let package = installed.last();
        let left = untouched(list, rest);
        let added = pins(list, rest);
        lemma_reconciled_list_parts(list, rest);
        lemma_reconciled_list_names(list, rest, package.name);
        if lists_name(list, package.name) {
            lemma_without_name_concat(left, added, package.name);
            assert(reconciled_list(list, installed) =~= untouched(list, installed) + pins(
                list,
                installed,
            ));
        } else {
            lemma_untouched_lists(list, rest, package.name);
            lemma_without_name_absent(left, package.name);
        }
    }
}

/// A list that declares none of the installed packages is left untouched.
pub proof fn lemma_reconciled_list_untouched(
    list: Seq<DependencyView>,
    installed: Seq<PackageView>,
)
    requires
        forall|name: Seq<char>| has_package(installed, name) ==> !lists_name(list, name),
    ensures
        reconciled_list(list, installed) == list,
    decreases installed.len(),
{
    if installed.len() > 0 {
        let rest = installed.drop_last();
        assert forall|name: Seq<char>| has_package(rest, name) implies !lists_name(list, name) by {
            let k = choose|k: int| 0 <= k < rest.len() && (#[trigger] rest[k]).name == name;
            assert(installed[k].name == name);
        }
        lemma_reconciled_list_untouched(list, rest);
        assert(installed[installed.len() - 1].name == installed.last().name);
    }
}

/// Reconciling a reconciled list with the same packages changes nothing.
pub proof fn lemma_reconciled_list_idempotent(
    list: Seq<DependencyView>,
    installed: Seq<PackageView>,
)
    ensures
        reconciled_list(reconciled_list(list, installed), installed) == reconciled_list(
            list,
            installed,
        ),
{
    let once = reconciled_list(list, installed);
    let left = untouched(list, installed);
    let added = pins(list, installed);
    lemma_reconciled_list_parts(list, installed);
    lemma_reconciled_list_parts(once, installed);
    assert forall|name: Seq<char>| lists_name(once, name) == lists_name(list, name) by {
        lemma_reconciled_list_names(list, installed, name);
    }
    lemma_pins_by_names(once, list, installed);
    lemma_untouched_concat(left, added, installed);
    assert forall|name: Seq<char>| has_package(installed, name) implies !lists_name(left, name) by {
        lemma_untouched_lists(list, installed, name);
    }
    lemma_untouched_absent(left, installed);
    assert forall|name: Seq<char>| lists_name(added, name) implies has_package(installed, name) by {
        lemma_pins_lists(list, installed, name);
    }
    lemma_untouched_installed(added, installed);
    assert(left + Seq::<DependencyView>::empty() =~= left);
}

/// Reconciliation is idempotent: a manifest that was reconciled with the
/// installed packages is left as it is by a second reconciliation with the
/// same packages.
pub proof fn lemma_reconciled_idempotent(manifest: ManifestView, installed: Seq<PackageView>)
    ensures
        reconciled(reconciled(manifest, installed), installed) == reconciled(manifest, installed),
{
    let once = reconciled(manifest, installed);
    let twice = reconciled(once, installed);
    match manifest.required {
        Some(list) => {
            lemma_reconciled_list_idempotent(list, installed);
        },
        None => {},
    }
    match manifest.optional {
        Some(groups) => {
            let first = reconciled_groups(groups, installed);
            let second = reconciled_groups(first, installed);
            assert forall|g: int| 0 <= g < first.len() implies second[g] == first[g] by {
                lemma_reconciled_list_idempotent(groups[g].dependencies, installed);
            }
            assert(second =~= first);
        },
        None => {},
    }
    assert(twice.required == once.required);
    assert(twice.optional == once.optional);
}

} // verus!
