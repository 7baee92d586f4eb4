//! The group registry: an ordered mapping from group name to dependency list,
//! built afresh from the manifest for every operation.

use vstd::prelude::*;
use indexmap::IndexMap;
use crate::dependency::{dependency_views, Dependency};
use crate::error::Error;
use crate::manifest::{
    copy_dependencies, distinct_names, group_views, has_group, required_name, GroupView, Manifest,
    ManifestView, REQUIRED_GROUP,
};

verus! {

/// `indexmap::IndexMap`, the hash map that keeps its entries in insertion
/// order. Nothing inside a map is visible to the verifier.
#[verifier::external_type_specification]
#[verifier::external_body]
#[verifier::reject_recursive_types(K)]
#[verifier::reject_recursive_types(V)]
#[verifier::reject_recursive_types(S)]
pub struct ExIndexMap<K, V, S>(IndexMap<K, V, S>);

/// The groups that a map holds, in the map's own order: each key with the
/// dependencies stored under it.
pub uninterp spec fn stored_groups(map: IndexMap<String, Vec<Dependency>>) -> Seq<GroupView>;

/// The group that a name and a list of dependencies make up.
pub open spec fn group_of(name: Seq<char>, dependencies: Seq<Dependency>) -> GroupView {
    GroupView { name, dependencies: dependency_views(dependencies) }
}

/// The groups after `group` is registered: where a group of that name stands
/// already, it keeps its place and takes the new dependencies; otherwise the
/// new group comes last.
pub open spec fn registered(groups: Seq<GroupView>, group: GroupView) -> Seq<GroupView> {
    if has_group(groups, group.name) {
        Seq::new(
            groups.len(),
            |i: int|
                if groups[i].name == group.name {
                    group
                } else {
                    groups[i]
                },
        )
    } else {
        groups.push(group)
    }
}

/// `IndexMap::new`: the new map holds nothing.
#[verifier::external_body]
fn map_new() -> (map: IndexMap<String, Vec<Dependency>>)
    ensures
        stored_groups(map) == Seq::<GroupView>::empty(),
{
    IndexMap::new()
}

/// `IndexMap::insert`: where an equal key exists, it keeps its place in the
/// order and its value is replaced; otherwise the pair is inserted last.
/// Strings are equal keys exactly when they hold the same characters.
#[verifier::external_body]
fn map_insert(
    map: &mut IndexMap<String, Vec<Dependency>>,
    name: String,
    dependencies: Vec<Dependency>,
)
    ensures
        stored_groups(*final(map)) == registered(
            stored_groups(*old(map)),
            group_of(name@, dependencies@),
        ),
{
    map.insert(name, dependencies);
}

/// `IndexMap::len`: the number of pairs in the map.
#[verifier::external_body]
fn map_len(map: &IndexMap<String, Vec<Dependency>>) -> (len: usize)
    ensures
        len == stored_groups(*map).len(),
{
    map.len()
}

/// `IndexMap::get_index`: the pair at that place in the order, for every
/// index below the length, and nothing from there on.
#[verifier::external_body]
fn map_get_index(map: &IndexMap<String, Vec<Dependency>>, index: usize) -> (entry: Option<
    (&String, &Vec<Dependency>),
>)
    ensures
        match entry {
            Some((name, dependencies)) => {
                &&& index < stored_groups(*map).len()
                &&& name@ == stored_groups(*map)[index as int].name
                &&& dependency_views(dependencies@) == stored_groups(
                    *map,
                )[index as int].dependencies
            },
            None => index >= stored_groups(*map).len(),
        },
{
    map.get_index(index)
}

/// `IndexMap::contains_key`: whether a key equal to `name` is in the map.
#[verifier::external_body]
fn map_contains_key(map: &IndexMap<String, Vec<Dependency>>, name: &String) -> (found: bool)
    ensures
        found == has_group(stored_groups(*map), name@),
{
    map.contains_key(name)
}

/// The groups after each of `groups` is registered in turn, starting from
/// `base`.
pub open spec fn registered_all(base: Seq<GroupView>, groups: Seq<GroupView>) -> Seq<GroupView>
    decreases groups.len(),
{
    if groups.len() == 0 {
        base
    } else {
        registered(registered_all(base, groups.drop_last()), groups.last())
    }
}

/// The registry of a manifest: the group of the required dependencies under
/// the reserved name, an empty one where the manifest exposes no such list,
/// then every optional group registered in declaration order.
pub open spec fn registry_of(manifest: ManifestView) -> Seq<GroupView> {
    registered_all(seq![manifest.required_group()], manifest.optional_groups())
}

/// The registry of a well-formed manifest lists the required group first and
/// then the optional groups as they are declared.
pub proof fn lemma_registry_of_well_formed(manifest: ManifestView)
    requires
        manifest.well_formed(),
    ensures
        registry_of(manifest) == seq![manifest.required_group()] + manifest.optional_groups(),
{
    let base = seq![manifest.required_group()];
    lemma_registered_all_fresh(base, manifest.optional_groups());
}

/// Registering groups whose names are new, to the base and to each other,
/// appends them in order.
proof fn lemma_registered_all_fresh(base: Seq<GroupView>, groups: Seq<GroupView>)
    requires
        distinct_names(groups),
        forall|i: int, j: int|
            0 <= i < base.len() && 0 <= j < groups.len() ==> (#[trigger] base[i]).name != (
            #[trigger] groups[j]).name,
    ensures
        registered_all(base, groups) == base + groups,
    decreases groups.len(),
{
    if groups.len() == 0 {
        assert(base + groups =~= base);
    } else {
        let front = groups.drop_last();
        lemma_registered_all_fresh(base, front);
        let so_far = base + front;
        assert(!has_group(so_far, groups.last().name)) by {
            assert forall|i: int| 0 <= i < so_far.len() implies (#[trigger] so_far[i]).name
                != groups.last().name by {
                if i < base.len() {
                    assert(so_far[i] == base[i]);
                    assert(groups.last() == groups[groups.len() - 1]);
                } else {
                    assert(so_far[i] == groups[i - base.len()]);
                    assert(groups.last() == groups[groups.len() - 1]);
                }
            }
        }
        assert(so_far.push(groups.last()) =~= base + groups);
    }
}

/// Registering a group keeps the names apart and the groups in their places:
/// the group is registered afterwards, every group that was registered still
/// is, and the first group keeps its name.
pub proof fn lemma_registered_keeps_order(groups: Seq<GroupView>, group: GroupView)
    requires
        distinct_names(groups),
    ensures
        distinct_names(registered(groups, group)),
        has_group(registered(groups, group), group.name),
        forall|name: Seq<char>|
            has_group(groups, name) ==> has_group(registered(groups, group), name),
        groups.len() > 0 ==> registered(groups, group).len() > 0 && registered(
            groups,
            group,
        )[0].name == groups[0].name,
{
    let after = registered(groups, group);
    if has_group(groups, group.name) {
        let at = choose|i: int| 0 <= i < groups.len() && (#[trigger] groups[i]).name == group.name;
        assert(after[at].name == group.name);
        assert forall|name: Seq<char>| has_group(groups, name) implies has_group(after, name) by {
            let i = choose|i: int| 0 <= i < groups.len() && (#[trigger] groups[i]).name == name;
            assert(after[i].name == name);
        }
        assert forall|i: int, j: int| 0 <= i < j < after.len() implies (#[trigger] after[i]).name
            != (#[trigger] after[j]).name by {
            assert(after[i].name == groups[i].name);
            assert(after[j].name == groups[j].name);
        }
    } else {
        assert(after[groups.len() as int].name == group.name);
        assert forall|name: Seq<char>| has_group(groups, name) implies has_group(after, name) by {
            let i = choose|i: int| 0 <= i < groups.len() && (#[trigger] groups[i]).name == name;
            assert(after[i].name == name);
        }
        assert forall|i: int, j: int| 0 <= i < j < after.len() implies (#[trigger] after[i]).name
            != (#[trigger] after[j]).name by {
            if j < groups.len() {
                assert(after[i] == groups[i]);
                assert(after[j] == groups[j]);
            } else {
                assert(after[i] == groups[i]);
            }
        }
    }
}

/// The registry of any manifest holds no name twice, and its first group is
/// the group of the required dependencies.
pub proof fn lemma_registry_of_shape(manifest: ManifestView)
    ensures
        distinct_names(registry_of(manifest)),
        registry_of(manifest).len() > 0,
        registry_of(manifest)[0].name == required_name(),
{
    let base = seq![manifest.required_group()];
    lemma_registered_all_shape(base, manifest.optional_groups());
}

proof fn lemma_registered_all_shape(base: Seq<GroupView>, groups: Seq<GroupView>)
    requires
        distinct_names(base),
        base.len() > 0,
    ensures
        distinct_names(registered_all(base, groups)),
        registered_all(base, groups).len() > 0,
        registered_all(base, groups)[0].name == base[0].name,
    decreases groups.len(),
{
    if groups.len() > 0 {
        lemma_registered_all_shape(base, groups.drop_last());
        lemma_registered_keeps_order(registered_all(base, groups.drop_last()), groups.last());
    }
}

/// The registry. It holds the groups of one manifest for the length of one
/// operation and is never persisted.
#[derive(Debug)]
pub struct GroupRegistry {
    groups: IndexMap<String, Vec<Dependency>>,
}

impl View for GroupRegistry {
    type V = Seq<GroupView>;

    closed spec fn view(&self) -> Seq<GroupView> {
        stored_groups(self.groups)
    }
}

impl GroupRegistry {
    /// The invariant of a registry: it is a mapping, so no two of its groups
    /// bear the same name.
    pub open spec fn well_formed(&self) -> bool {
        distinct_names(self@)
    }

    /// A registry without groups.
    pub fn new() -> (registry: GroupRegistry)
        ensures
            registry@ == Seq::<GroupView>::empty(),
            registry.well_formed(),
    {
        GroupRegistry { groups: map_new() }
    }

    /// Registers `dependencies` under `name`. A group that is registered
    /// under that name already keeps its place and takes the new list.
    pub fn insert(&mut self, name: String, dependencies: Vec<Dependency>)
        ensures
            final(self)@ == registered(old(self)@, group_of(name@, dependencies@)),
            old(self).well_formed() ==> final(self).well_formed(),
    {
        proof {
            if self.well_formed() {
                lemma_registered_keeps_order(self@, group_of(name@, dependencies@));
            }
        }
        map_insert(&mut self.groups, name, dependencies);
    }

    /// The number of groups.
    pub fn len(&self) -> (len: usize)
        ensures
            len == self@.len(),
    {
        map_len(&self.groups)
    }

    /// The name and the dependencies of the group at `index` in registration
    /// order, for every index below `len()`.
    pub fn group_at(&self, index: usize) -> (entry: Option<(&String, &Vec<Dependency>)>)
        ensures
            match entry {
                Some((name, dependencies)) => {
                    &&& index < self@.len()
                    &&& name@ == self@[index as int].name
                    &&& dependency_views(dependencies@) == self@[index as int].dependencies
                },
                None => index >= self@.len(),
            },
    {
        map_get_index(&self.groups, index)
    }

    /// Whether a group is registered under `name`.
    pub fn contains(&self, name: &String) -> (found: bool)
        ensures
            found == has_group(self@, name@),
    {
        map_contains_key(&self.groups, name)
    }

    /// Builds the registry of a manifest. The group of the required
    /// dependencies is always created; a manifest that exposes neither
    /// structure has no registry.
    pub fn build(manifest: &Manifest) -> (built: Result<GroupRegistry, Error>)
        ensures
            match built {
                Ok(registry) => {
                    &&& !(manifest.required is None && manifest.optional is None)
                    &&& registry@ == registry_of(manifest@)
                    &&& registry.well_formed()
                    &&& registry@.len() > 0
                    &&& registry@[0].name == required_name()
                },
                Err(error) => {
                    &&& manifest.required is None
                    &&& manifest.optional is None
                    &&& error@ == crate::error::ErrorView::ProjectDependenciesNotFound
                },
            },
    {
        if manifest.required.is_none() && manifest.optional.is_none() {
            return Err(Error::ProjectDependenciesNotFound);
        }
        proof {
            lemma_registry_of_shape(manifest@);
        }
        let mut registry = GroupRegistry::new();
        let required = match &manifest.required {
            Some(dependencies) => copy_dependencies(dependencies),
            None => Vec::new(),
        };
        assert(dependency_views(required@) =~= manifest@.required_list());
        registry.insert(REQUIRED_GROUP.to_owned(), required);
        let ghost base = seq![manifest@.required_group()];
        assert(registry@ =~= base);
        if let Some(groups) = &manifest.optional {
            let mut g: usize = 0;
            assert(group_views(groups@).take(0) =~= Seq::<GroupView>::empty());
            while g < groups.len()
                invariant
                    g <= groups.len(),
                    registry@ == registered_all(base, group_views(groups@).take(g as int)),
                decreases groups.len() - g,
            {
                let group = &groups[g];
                registry.insert(group.name.clone(), copy_dependencies(&group.dependencies));
                proof {
                    let next = group_views(groups@).take(g + 1);
                    assert(next.drop_last() =~= group_views(groups@).take(g as int));
                    assert(next.last() == group@);
                }
                g += 1;
            }
            assert(group_views(groups@).take(g as int) =~= manifest@.optional_groups());
        }
        Ok(registry)
    }
}

} // verus!
