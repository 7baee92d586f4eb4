//! The manifest as this library consumes it: an ordered list of required
//! dependencies and an ordered list of named optional groups.

use vstd::prelude::*;
use crate::dependency::{
    dependency_views, optional_dependency_views, Dependency, DependencyView,
};

verus! {

/// The name under which the required dependencies are registered. It is
/// reserved: no optional group of a well-formed manifest bears it.
pub const REQUIRED_GROUP: &'static str = "required";

/// The name of the reserved group, as a character sequence.
pub open spec fn required_name() -> Seq<char> {
    REQUIRED_GROUP@
}

/// What a group is in contracts.
pub ghost struct GroupView {
    pub name: Seq<char>,
    pub dependencies: Seq<DependencyView>,
}

/// A named, ordered list of dependencies.
#[derive(Debug)]
pub struct Group {
    pub name: String,
    pub dependencies: Vec<Dependency>,
}

impl View for Group {
    type V = GroupView;

    open spec fn view(&self) -> GroupView {
        GroupView { name: self.name@, dependencies: dependency_views(self.dependencies@) }
    }
}

/// The views of a list of groups, in order.
pub open spec fn group_views(groups: Seq<Group>) -> Seq<GroupView> {
    Seq::new(groups.len(), |i: int| groups[i]@)
}

/// Whether some dependency of the list bears the name.
pub open spec fn lists_name(dependencies: Seq<DependencyView>, name: Seq<char>) -> bool {
    exists|i: int| 0 <= i < dependencies.len() && (#[trigger] dependencies[i]).name == name
}

/// Whether some group of the list bears the name.
pub open spec fn has_group(groups: Seq<GroupView>, name: Seq<char>) -> bool {
    exists|i: int| 0 <= i < groups.len() && (#[trigger] groups[i]).name == name
}

/// Whether no two groups of the list bear the same name.
pub open spec fn distinct_names(groups: Seq<GroupView>) -> bool {
    forall|i: int, j: int|
        0 <= i < j < groups.len() ==> (#[trigger] groups[i]).name != (#[trigger] groups[j]).name
}

/// The dependencies of all the groups, group after group.
pub open spec fn flattened(groups: Seq<GroupView>) -> Seq<DependencyView>
    decreases groups.len(),
{
    if groups.len() == 0 {
        Seq::empty()
    } else {
        flattened(groups.drop_last()) + groups.last().dependencies
    }
}

/// What a manifest is in contracts. `None` stands for a structure that the
/// manifest does not expose at all, which is not the same as an empty list.
pub ghost struct ManifestView {
    pub required: Option<Seq<DependencyView>>,
    pub optional: Option<Seq<GroupView>>,
}

impl ManifestView {
    /// The required dependencies, none where the manifest exposes no such list.
    pub open spec fn required_list(self) -> Seq<DependencyView> {
        match self.required {
            Some(dependencies) => dependencies,
            None => Seq::empty(),
        }
    }

    /// The optional groups, none where the manifest exposes no such mapping.
    pub open spec fn optional_groups(self) -> Seq<GroupView> {
        match self.optional {
            Some(groups) => groups,
            None => Seq::empty(),
        }
    }

    /// The group of the required dependencies, under the reserved name.
    pub open spec fn required_group(self) -> GroupView {
        GroupView { name: required_name(), dependencies: self.required_list() }
    }

    /// The invariant of a manifest: the names of its optional groups are
    /// unique, and none of them is the reserved name.
    pub open spec fn well_formed(self) -> bool {
        &&& distinct_names(self.optional_groups())
        &&& !has_group(self.optional_groups(), required_name())
    }

    /// Whether the manifest declares a dependency of that name, in the
    /// required list or in any optional group.
    pub open spec fn declares(self, name: Seq<char>) -> bool {
        ||| lists_name(self.required_list(), name)
        ||| exists|g: int|
            0 <= g < self.optional_groups().len() && lists_name(
                (#[trigger] self.optional_groups()[g]).dependencies,
                name,
            )
    }

    /// Every declared dependency: the required ones, then those of each
    /// optional group in declaration order.
    pub open spec fn all_dependencies(self) -> Seq<DependencyView> {
        self.required_list() + flattened(self.optional_groups())
    }
}

/// A snapshot of the manifest. Operations consume a snapshot and produce a new
/// one; the caller persists it.
#[derive(Debug)]
pub struct Manifest {
    pub required: Option<Vec<Dependency>>,
    pub optional: Option<Vec<Group>>,
}

impl View for Manifest {
    type V = ManifestView;

    open spec fn view(&self) -> ManifestView {
        ManifestView {
            required: optional_dependency_views(self.required),
            optional: match self.optional {
                Some(groups) => Some(group_views(groups@)),
                None => None,
            },
        }
    }
}

/// Whether two lists hold the same dependencies in the same order.
fn same_dependencies(left: &Vec<Dependency>, right: &Vec<Dependency>) -> (same: bool)
    ensures
        same == (dependency_views(left@) == dependency_views(right@)),
{
    if left.len() != right.len() {
        assert(dependency_views(left@).len() != dependency_views(right@).len());
        return false;
    }
    let mut i: usize = 0;
    while i < left.len()
        invariant
            left.len() == right.len(),
            i <= left.len(),
            forall|j: int| 0 <= j < i ==> left@[j]@ == right@[j]@,
        decreases left.len() - i,
    {
        if !(left[i] == right[i]) {
            assert(dependency_views(left@)[i as int] != dependency_views(right@)[i as int]);
            return false;
        }
        i += 1;
    }
    assert(dependency_views(left@) =~= dependency_views(right@));
    true
}

/// Whether two lists hold the same groups in the same order.
fn same_groups(left: &Vec<Group>, right: &Vec<Group>) -> (same: bool)
    ensures
        same == (group_views(left@) == group_views(right@)),
{
    if left.len() != right.len() {
        assert(group_views(left@).len() != group_views(right@).len());
        return false;
    }
    let mut i: usize = 0;
    while i < left.len()
        invariant
            left.len() == right.len(),
            i <= left.len(),
            forall|j: int| 0 <= j < i ==> left@[j]@ == right@[j]@,
        decreases left.len() - i,
    {
        if !(left[i] == right[i]) {
            assert(group_views(left@)[i as int] != group_views(right@)[i as int]);
            return false;
        }
        i += 1;
    }
    assert(group_views(left@) =~= group_views(right@));
    true
}

impl Clone for Group {
    fn clone(&self) -> (copy: Self)
        ensures
            copy@ == self@,
    {
        Group { name: self.name.clone(), dependencies: copy_dependencies(&self.dependencies) }
    }
}

impl PartialEq for Group {
    fn eq(&self, other: &Self) -> (equal: bool) {
        self.name == other.name && same_dependencies(&self.dependencies, &other.dependencies)
    }
}

impl vstd::std_specs::cmp::PartialEqSpecImpl for Group {
    open spec fn obeys_eq_spec() -> bool {
        true
    }

    open spec fn eq_spec(&self, other: &Self) -> bool {
        self@ == other@
    }
}

/// A copy of the list, dependency by dependency.
pub(crate) fn copy_dependencies(dependencies: &Vec<Dependency>) -> (copy: Vec<Dependency>)
    ensures
        dependency_views(copy@) == dependency_views(dependencies@),
{
    let copy = dependencies.clone();
    assert(dependency_views(copy@) =~= dependency_views(dependencies@));
    copy
}

/// A copy of the list, group by group.
pub(crate) fn copy_groups(groups: &Vec<Group>) -> (copy: Vec<Group>)
    ensures
        group_views(copy@) == group_views(groups@),
{
    let copy = groups.clone();
    assert(group_views(copy@) =~= group_views(groups@));
    copy
}

impl Clone for Manifest {
    fn clone(&self) -> (copy: Self)
        ensures
            copy@ == self@,
    {
        Manifest {
            required: match &self.required {
                Some(dependencies) => Some(copy_dependencies(dependencies)),
                None => None,
            },
            optional: match &self.optional {
                Some(groups) => Some(copy_groups(groups)),
                None => None,
            },
        }
    }
}

impl PartialEq for Manifest {
    /// Two snapshots are equal when they hold the same lists, by value.
    fn eq(&self, other: &Self) -> (equal: bool) {
        let same_required = match (&self.required, &other.required) {
            (Some(left), Some(right)) => same_dependencies(left, right),
            (None, None) => true,
            _ => false,
        };
        let same_optional = match (&self.optional, &other.optional) {
            (Some(left), Some(right)) => same_groups(left, right),
            (None, None) => true,
            _ => false,
        };
        same_required && same_optional
    }
}

impl vstd::std_specs::cmp::PartialEqSpecImpl for Manifest {
    open spec fn obeys_eq_spec() -> bool {
        true
    }

    open spec fn eq_spec(&self, other: &Self) -> bool {
        self@ == other@
    }
}

/// Whether some dependency of the list bears the name of `dependency`.
pub fn lists_dependency(dependencies: &Vec<Dependency>, dependency: &Dependency) -> (found: bool)
    ensures
        found == lists_name(dependency_views(dependencies@), dependency@.name),
{
    let mut i: usize = 0;
    while i < dependencies.len()
        invariant
            i <= dependencies.len(),
            forall|j: int| 0 <= j < i ==> dependencies@[j]@.name != dependency@.name,
        decreases dependencies.len() - i,
    {
        if dependencies[i].same_name(dependency) {
            assert(dependency_views(dependencies@)[i as int].name == dependency@.name);
            return true;
        }
        i += 1;
    }
    false
}

impl Manifest {
    /// Whether the manifest keeps its invariant: the names of its optional
    /// groups are unique and none of them is the reserved name.
    pub fn is_well_formed(&self) -> (sound: bool)
        ensures
            sound == self@.well_formed(),
    {
        let groups = match &self.optional {
            Some(groups) => groups,
            None => {
                return true;
            },
        };
        let required = REQUIRED_GROUP.to_owned();
        let ghost views = group_views(groups@);
        assert(views == self@.optional_groups());
        let mut j: usize = 0;
        while j < groups.len()
            invariant
                j <= groups.len(),
                views == group_views(groups@),
                views == self@.optional_groups(),
                required@ == required_name(),
                forall|a: int, b: int|
                    0 <= a < b < j ==> (#[trigger] views[a]).name != (#[trigger] views[b]).name,
                forall|a: int| 0 <= a < j ==> (#[trigger] views[a]).name != required_name(),
            decreases groups.len() - j,
        {
            if groups[j].name == required {
                assert(views[j as int].name == required_name());
                return false;
            }
            let mut i: usize = 0;
            while i < j
                invariant
                    i <= j < groups.len(),
                    views == group_views(groups@),
                    views == self@.optional_groups(),
                    forall|a: int|
                        0 <= a < i ==> (#[trigger] views[a]).name != views[j as int].name,
                decreases j - i,
            {
                if groups[i].name == groups[j].name {
                    assert(views[i as int].name == views[j as int].name);
                    return false;
                }
                i += 1;
            }
            j += 1;
        }
        true
    }

    /// Every declared dependency: the required ones, then those of each
    /// optional group in declaration order.
    pub fn all_dependencies(&self) -> (dependencies: Vec<Dependency>)
        ensures
            dependency_views(dependencies@) == self@.all_dependencies(),
    {
        let mut dependencies = match &self.required {
            Some(required) => copy_dependencies(required),
            None => Vec::new(),
        };
        assert(dependency_views(dependencies@) =~= self@.required_list());
        if let Some(groups) = &self.optional {
            let mut g: usize = 0;
            proof {
                assert(group_views(groups@).take(0) =~= Seq::<GroupView>::empty());
                assert(self@.required_list() + Seq::<DependencyView>::empty()
                    =~= self@.required_list());
            }
            while g < groups.len()
                invariant
                    g <= groups.len(),
                    dependency_views(dependencies@) == self@.required_list() + flattened(
                        group_views(groups@).take(g as int),
                    ),
                decreases groups.len() - g,
            {
                proof {
                    let next = group_views(groups@).take(g + 1);
                    assert(next.drop_last() =~= group_views(groups@).take(g as int));
                    assert(next.last() == groups@[g as int]@);
                }
                let ghost before = dependencies@;
                dependencies.extend_from_slice(groups[g].dependencies.as_slice());
                assert(dependency_views(dependencies@) =~= dependency_views(before)
                    + dependency_views(groups@[g as int].dependencies@));
                g += 1;
            }
            assert(group_views(groups@).take(g as int) =~= self@.optional_groups());
        } else {
            assert(self@.required_list() + flattened(self@.optional_groups())
                =~= self@.required_list());
        }
        dependencies
    }

    /// Whether the manifest declares a dependency of the same name as
    /// `dependency`, under any group.
    pub fn declares(&self, dependency: &Dependency) -> (found: bool)
        ensures
            found == self@.declares(dependency@.name),
    {
        if let Some(required) = &self.required {
            if lists_dependency(required, dependency) {
                return true;
            }
        }
        if let Some(groups) = &self.optional {
            let mut g: usize = 0;
            while g < groups.len()
                invariant
                    g <= groups.len(),
                    self.optional == Some(*groups),
                    forall|k: int|
                        0 <= k < g ==> !lists_name(
                            (#[trigger] self@.optional_groups()[k]).dependencies,
                            dependency@.name,
                        ),
                decreases groups.len() - g,
            {
                if lists_dependency(&groups[g].dependencies, dependency) {
                    assert(self@.optional_groups()[g as int].dependencies == dependency_views(
                        groups@[g as int].dependencies@,
                    ));
                    return true;
                }
                g += 1;
            }
        }
        false
    }
}

} // verus!
