//! Recording tools: a tool that was installed for an operation and that the
//! manifest does not declare yet is recorded under a default group.

use vstd::prelude::*;
use crate::dependency::{
    dependency_views, package_views, Dependency, DependencyView, Package, PackageView,
};
use crate::manifest::{
    copy_dependencies, group_views, lists_name, Group, GroupView, Manifest, ManifestView,
};
use crate::names::name_views;
use crate::reconcile::has_package;

verus! {

/// The names of the tools that the manifest declares under no group, in the
/// order of the tools.
pub open spec fn undeclared_names(manifest: ManifestView, tools: Seq<DependencyView>) -> Seq<
    Seq<char>,
>
    decreases tools.len(),
{
    if tools.len() == 0 {
        Seq::empty()
    } else {
        let earlier = undeclared_names(manifest, tools.drop_last());
        if manifest.declares(tools.last().name) {
            earlier
        } else {
            earlier.push(tools.last().name)
        }
    }
}

/// The pins of the installed packages whose names stand in the list, in the
/// order in which the packages are reported.
pub open spec fn pins_of(installed: Seq<PackageView>, names: Seq<Seq<char>>) -> Seq<DependencyView>
    decreases installed.len(),
{
    if installed.len() == 0 {
        Seq::empty()
    } else {
        let earlier = pins_of(installed.drop_last(), names);
        if names.contains(installed.last().name) {
            earlier.push(installed.last().pin())
        } else {
            earlier
        }
    }
}

/// The groups after `entries` are appended to the group of that name: to the
/// first group that bears it, or, where none does, to a new group that comes
/// last.
pub open spec fn appended_to_group(
    groups: Seq<GroupView>,
    name: Seq<char>,
    entries: Seq<DependencyView>,
) -> Seq<GroupView>
    decreases groups.len(),
{
    if groups.len() == 0 {
        seq![GroupView { name, dependencies: entries }]
    } else if groups[0].name == name {
        seq![GroupView { name, dependencies: groups[0].dependencies + entries }] + groups.skip(1)
    } else {
        seq![groups[0]] + appended_to_group(groups.skip(1), name, entries)
    }
}

/// The manifest after the newly installed tools are recorded. A tool that
/// the manifest declares under no group is recorded, where it is installed,
/// as a pin of the installed version under the group `group`; the mapping of
/// optional groups and the group itself are created where they are missing.
/// Where there is nothing to record, the manifest stays as it is.
pub open spec fn recorded(
    manifest: ManifestView,
    tools: Seq<DependencyView>,
    installed: Seq<PackageView>,
    group: Seq<char>,
) -> ManifestView {
    let entries = pins_of(installed, undeclared_names(manifest, tools));
    if entries.len() == 0 {
        manifest
    } else {
        ManifestView {
            required: manifest.required,
            optional: Some(appended_to_group(manifest.optional_groups(), group, entries)),
        }
    }
}

/// The names of the tools that the manifest does not declare.
pub fn undeclared(manifest: &Manifest, tools: &[Dependency]) -> (names: Vec<String>)
    ensures
        name_views(names@) == undeclared_names(manifest@, dependency_views(tools@)),
{
    let mut names: Vec<String> = Vec::new();
    let mut i: usize = 0;
    proof {
        assert(dependency_views(tools@).take(0) =~= Seq::<DependencyView>::empty());
        assert(name_views(names@) =~= Seq::<Seq<char>>::empty());
    }
    while i < tools.len()
        invariant
            i <= tools.len(),
            name_views(names@) == undeclared_names(
                manifest@,
                dependency_views(tools@).take(i as int),
            ),
        decreases tools.len() - i,
    {
        proof {
            let next = dependency_views(tools@).take(i + 1);
            assert(next.drop_last() =~= dependency_views(tools@).take(i as int));
            assert(next.last() == tools@[i as int]@);
        }
        if !manifest.declares(&tools[i]) {
            let name = tools[i].name().to_owned();
            assert(name_views(names@.push(name)) =~= name_views(names@).push(name@));
            names.push(name);
        }
        i += 1;
    }
    assert(dependency_views(tools@).take(i as int) =~= dependency_views(tools@));
    names
}

/// The pins of the installed packages that bear one of the names.
pub fn pins_for(installed: &[Package], names: &[String]) -> (entries: Vec<Dependency>)
    ensures
        dependency_views(entries@) == pins_of(package_views(installed@), name_views(names@)),
{
    let mut entries: Vec<Dependency> = Vec::new();
    let mut k: usize = 0;
    proof {
        assert(package_views(installed@).take(0) =~= Seq::<PackageView>::empty());
        assert(dependency_views(entries@) =~= Seq::<DependencyView>::empty());
    }
    while k < installed.len()
        invariant
            k <= installed.len(),
            dependency_views(entries@) == pins_of(
                package_views(installed@).take(k as int),
                name_views(names@),
            ),
        decreases installed.len() - k,
    {
        proof {
            let next = package_views(installed@).take(k + 1);
            assert(next.drop_last() =~= package_views(installed@).take(k as int));
            assert(next.last() == installed@[k as int]@);
        }
        if installed[k].named_in(names) {
            let pin = installed[k].pin();
            assert(dependency_views(entries@.push(pin)) =~= dependency_views(entries@).push(pin@));
            entries.push(pin);
        }
        k += 1;
    }
    assert(package_views(installed@).take(k as int) =~= package_views(installed@));
    entries
}

/// Appends `entries` to the group `name`, which is created where no group
/// bears the name.
pub fn append_to_group(groups: &Vec<Group>, name: &String, entries: Vec<Dependency>) -> (updated:
    Vec<Group>)
    ensures
        group_views(updated@) == appended_to_group(
            group_views(groups@),
            name@,
            dependency_views(entries@),
        ),
{
    let ghost added = dependency_views(entries@);
    let ghost target = appended_to_group(group_views(groups@), name@, added);
    let mut updated: Vec<Group> = Vec::new();
    let mut found = false;
    let mut g: usize = 0;
    proof {
        assert(group_views(groups@).skip(0) =~= group_views(groups@));
        assert(group_views(updated@) + target =~= target);
    }
    while g < groups.len()
        invariant
            g <= groups.len(),
            added == dependency_views(entries@),
            target == group_views(updated@) + if found {
                group_views(groups@).skip(g as int)
            } else {
                appended_to_group(group_views(groups@).skip(g as int), name@, added)
            },
        decreases groups.len() - g,
    {
        let group = &groups[g];
        let ghost head = group_views(updated@);
        let ghost rest = group_views(groups@).skip(g as int);
        proof {
            assert(rest[0] == group@);
            assert(rest.skip(1) =~= group_views(groups@).skip(g + 1));
            assert(rest =~= seq![rest[0]] + rest.skip(1));
        }
        if !found && group.name == *name {
            let mut dependencies = copy_dependencies(&group.dependencies);
            let ghost before = dependencies@;
            dependencies.extend_from_slice(entries.as_slice());
            assert(dependency_views(dependencies@) =~= dependency_views(before) + added);
            let merged = Group { name: group.name.clone(), dependencies };
            assert(head + (seq![merged@] + rest.skip(1)) =~= head.push(merged@) + rest.skip(1));
            assert(group_views(updated@.push(merged)) =~= head.push(merged@));
            updated.push(merged);
            found = true;
        } else {
            proof {
                if found {
                    assert(head + rest =~= head.push(group@) + rest.skip(1));
                } else {
                    let tail = appended_to_group(rest.skip(1), name@, added);
                    assert(head + (seq![rest[0]] + tail) =~= head.push(group@) + tail);
                }
            }
            let copy = group.clone();
            assert(group_views(updated@.push(copy)) =~= head.push(group@));
            updated.push(copy);
        }
        g += 1;
    }
    if !found {
        let ghost head = group_views(updated@);
        let created = Group { name: name.clone(), dependencies: entries };
        assert(group_views(updated@.push(created)) =~= head + seq![created@]);
        updated.push(created);
    } else {
        assert(group_views(updated@) + group_views(groups@).skip(g as int) =~= group_views(
            updated@,
        ));
    }
    updated
}

/// Records the newly installed tools in the manifest and hands back the new
/// snapshot.
pub fn record_tools(
    manifest: &Manifest,
    tools: &[Dependency],
    installed: &[Package],
    group: &String,
) -> (updated: Manifest)
    ensures
        updated@ == recorded(
            manifest@,
            dependency_views(tools@),
            package_views(installed@),
            group@,
        ),
{
    let names = undeclared(manifest, tools);
    let entries = pins_for(installed, names.as_slice());
    if entries.len() == 0 {
        return manifest.clone();
    }
    let required = match &manifest.required {
        Some(list) => Some(copy_dependencies(list)),
        None => None,
    };
    let optional = match &manifest.optional {
        Some(groups) => append_to_group(groups, group, entries),
        None => {
            let groups: Vec<Group> = Vec::new();
            assert(group_views(groups@) =~= manifest@.optional_groups());
            append_to_group(&groups, group, entries)
        },
    };
    Manifest { required, optional: Some(optional) }
}

/// A name is undeclared exactly when a tool bears it and the manifest does
/// not declare it.
proof fn lemma_undeclared_names(manifest: ManifestView, tools: Seq<DependencyView>, name: Seq<char>)
    ensures
        undeclared_names(manifest, tools).contains(name) == (lists_name(tools, name)
            && !manifest.declares(name)),
    decreases tools.len(),
{
    if tools.len() > 0 {
        let front = tools.drop_last();
        let earlier = undeclared_names(manifest, front);
        let names = undeclared_names(manifest, tools);
        lemma_undeclared_names(manifest, front, name);
        if names.contains(name) {
            let i = choose|i: int| 0 <= i < names.len() && names[i] == name;
            if i < earlier.len() {
                assert(earlier[i] == name);
                assert(earlier.contains(name));
                let j = choose|j: int| 0 <= j < front.len() && (#[trigger] front[j]).name == name;
                assert(tools[j].name == name);
            } else {
                assert(tools[tools.len() - 1].name == name);
            }
        }
        if lists_name(tools, name) && !manifest.declares(name) {
            let j = choose|j: int| 0 <= j < tools.len() && (#[trigger] tools[j]).name == name;
            if j < front.len() {
                assert(front[j].name == name);
                assert(earlier.contains(name));
                let i = choose|i: int| 0 <= i < earlier.len() && earlier[i] == name;
                assert(names[i] == name);
            } else {
                assert(names[names.len() - 1] == name);
            }
        }
    }
}

/// The pins bear exactly the installed names that stand in the list.
proof fn lemma_pins_of_lists(installed: Seq<PackageView>, names: Seq<Seq<char>>, name: Seq<char>)
    ensures
        lists_name(pins_of(installed, names), name) == (has_package(installed, name)
            && names.contains(name)),
    decreases installed.len(),
{
    if installed.len() > 0 {
        let front = installed.drop_last();
        let earlier = pins_of(front, names);
        let entries = pins_of(installed, names);
        lemma_pins_of_lists(front, names, name);
        if lists_name(entries, name) {
            let i = choose|i: int| 0 <= i < entries.len() && (#[trigger] entries[i]).name == name;
            if i < earlier.len() {
                assert(earlier[i].name == name);
                let k = choose|k: int| 0 <= k < front.len() && (#[trigger] front[k]).name == name;
                assert(installed[k].name == name);
            } else {
                assert(installed[installed.len() - 1].name == name);
            }
        }
        if has_package(installed, name) && names.contains(name) {
            let k = choose|k: int|
                0 <= k < installed.len() && (#[trigger] installed[k]).name == name;
            if k < front.len() {
                assert(front[k].name == name);
                let i = choose|i: int|
                    0 <= i < earlier.len() && (#[trigger] earlier[i]).name == name;
                assert(entries[i].name == name);
            } else {
                assert(entries[entries.len() - 1].name == name);
            }
        }
    }
}

/// Appending to a group loses no name that a group held, and some group
/// holds the names of the entries afterwards.
proof fn lemma_appended_to_group_lists(
    groups: Seq<GroupView>,
    group: Seq<char>,
    entries: Seq<DependencyView>,
    name: Seq<char>,
)
    ensures
        appended_to_group(groups, group, entries).len() >= groups.len(),
        forall|g: int|
            0 <= g < groups.len() && lists_name((#[trigger] groups[g]).dependencies, name)
                ==> lists_name(appended_to_group(groups, group, entries)[g].dependencies, name),
        lists_name(entries, name) ==> exists|g: int|
            0 <= g < appended_to_group(groups, group, entries).len() && lists_name(
                (#[trigger] appended_to_group(groups, group, entries)[g]).dependencies,
                name,
            ),
    decreases groups.len(),
{
    let after = appended_to_group(groups, group, entries);
    if groups.len() == 0 {
        assert(after[0].dependencies == entries);
    } else if groups[0].name == group {
        let merged = groups[0].dependencies + entries;
        assert(after[0].dependencies == merged);
        if lists_name(entries, name) {
            let i = choose|i: int| 0 <= i < entries.len() && (#[trigger] entries[i]).name == name;
            assert(merged[groups[0].dependencies.len() + i].name == name);
        }
        assert forall|g: int|
            0 <= g < groups.len() && lists_name(
                (#[trigger] groups[g]).dependencies,
                name,
            ) implies lists_name(after[g].dependencies, name) by {
            if g == 0 {
                let i = choose|i: int|
                    0 <= i < groups[0].dependencies.len() && (
                    #[trigger] groups[0].dependencies[i]).name == name;
                assert(merged[i].name == name);
            } else {
                assert(after[g] == groups[g]);
            }
        }
    } else {
        let rest = groups.skip(1);
        let tail = appended_to_group(rest, group, entries);
        lemma_appended_to_group_lists(rest, group, entries, name);
        assert forall|g: int|
            0 <= g < groups.len() && lists_name(
                (#[trigger] groups[g]).dependencies,
                name,
            ) implies lists_name(after[g].dependencies, name) by {
            if g > 0 {
                assert(rest[g - 1] == groups[g]);
                assert(after[g] == tail[g - 1]);
            }
        }
        if lists_name(entries, name) {
            let g = choose|g: int|
                0 <= g < tail.len() && lists_name((#[trigger] tail[g]).dependencies, name);
            assert(after[g + 1] == tail[g]);
        }
    }
}

/// Recording is idempotent: once the installed tools are recorded, recording
/// them again with the same installed packages changes nothing.
pub proof fn lemma_recorded_idempotent(
    manifest: ManifestView,
    tools: Seq<DependencyView>,
    installed: Seq<PackageView>,
    group: Seq<char>,
)
    ensures
        recorded(recorded(manifest, tools, installed, group), tools, installed, group) == recorded(
            manifest,
            tools,
            installed,
            group,
        ),
{
    let names = undeclared_names(manifest, tools);
    let entries = pins_of(installed, names);
    let once = recorded(manifest, tools, installed, group);
    if entries.len() > 0 {
        let again = pins_of(installed, undeclared_names(once, tools));
        if again.len() > 0 {
            let name = again[0].name;
            assert(lists_name(again, name));
            lemma_pins_of_lists(installed, undeclared_names(once, tools), name);
            lemma_undeclared_names(once, tools, name);
            lemma_appended_to_group_lists(manifest.optional_groups(), group, entries, name);
            let after = appended_to_group(manifest.optional_groups(), group, entries);
            assert(once.optional_groups() == after);
            if manifest.declares(name) {
                if !lists_name(manifest.required_list(), name) {
                    let g = choose|g: int|
                        0 <= g < manifest.optional_groups().len() && lists_name(
                            (#[trigger] manifest.optional_groups()[g]).dependencies,
                            name,
                        );
                    assert(lists_name(after[g].dependencies, name));
                }
                assert(once.declares(name));
            } else {
                lemma_undeclared_names(manifest, tools, name);
                lemma_pins_of_lists(installed, names, name);
                assert(lists_name(entries, name));
                assert(once.declares(name));
            }
        }
    }
}

} // verus!
