//! The group filter: which groups a request asks for, whether the request is
//! sound, and which dependencies it selects.
//!
//! The reserved group of the required dependencies is treated as any other
//! group: a request that names groups to take selects it only where it is
//! named among them.

use vstd::prelude::*;
use crate::dependency::{dependency_views, Dependency, DependencyView};
use crate::error::{Error, ErrorView};
use crate::manifest::{
    flattened, has_group, required_name, GroupView, ManifestView, REQUIRED_GROUP,
};
use crate::names::{contains_name, name_views, requested_names, split_commas, text_view};
use crate::registry::{lemma_registry_of_well_formed, registry_of, GroupRegistry};

verus! {

/// The names that stand both among the included and among the excluded, each
/// once, in the order in which the included list first has them.
pub open spec fn conflicting(included: Seq<Seq<char>>, excluded: Seq<Seq<char>>) -> Seq<
    Seq<char>,
>
    decreases included.len(),
{
    if included.len() == 0 {
        Seq::empty()
    } else {
        let earlier = conflicting(included.drop_last(), excluded);
        let name = included.last();
        if excluded.contains(name) && !earlier.contains(name) {
            earlier.push(name)
        } else {
            earlier
        }
    }
}

/// Whether a request may name the group: the reserved name always, any other
/// name where the registry has a group of it.
pub open spec fn known_group(groups: Seq<GroupView>, name: Seq<char>) -> bool {
    name == required_name() || has_group(groups, name)
}

/// The first of the names that the registry does not know, if there is one.
pub open spec fn first_unknown(names: Seq<Seq<char>>, groups: Seq<GroupView>) -> Option<
    Seq<char>,
>
    decreases names.len(),
{
    if names.len() == 0 {
        None
    } else if !known_group(groups, names[0]) {
        Some(names[0])
    } else {
        first_unknown(names.skip(1), groups)
    }
}

/// The verdict on a request. A name that is included and excluded at once
/// fails the request with all such names, before anything else is looked at.
/// Otherwise the first unknown name fails it, the included names being looked
/// at before the excluded ones.
pub open spec fn validation(
    included: Seq<Seq<char>>,
    excluded: Seq<Seq<char>>,
    groups: Seq<GroupView>,
) -> Result<(), ErrorView> {
    if conflicting(included, excluded).len() > 0 {
        Err(ErrorView::DependencyGroupConflict(conflicting(included, excluded)))
    } else {
        match first_unknown(included, groups) {
            Some(name) => Err(ErrorView::DependencyGroupNotFound(name)),
            None => match first_unknown(excluded, groups) {
                Some(name) => Err(ErrorView::DependencyGroupNotFound(name)),
                None => Ok(()),
            },
        }
    }
}

/// Whether the request selects the group of that name. With no included
/// names every group is selected that is not excluded; with included names
/// only those among them that are not excluded.
pub open spec fn selected(
    included: Seq<Seq<char>>,
    excluded: Seq<Seq<char>>,
    name: Seq<char>,
) -> bool {
    if included.len() == 0 {
        !excluded.contains(name)
    } else {
        included.contains(name) && !excluded.contains(name)
    }
}

/// The dependencies of the selected groups: group after group in the order
/// of the registry, each group's dependencies in their own order, with
/// nothing removed where two groups hold the same dependency.
pub open spec fn filtered(
    included: Seq<Seq<char>>,
    excluded: Seq<Seq<char>>,
    groups: Seq<GroupView>,
) -> Seq<DependencyView>
    decreases groups.len(),
{
    if groups.len() == 0 {
        Seq::empty()
    } else {
        let earlier = filtered(included, excluded, groups.drop_last());
        if selected(included, excluded, groups.last().name) {
            earlier + groups.last().dependencies
        } else {
            earlier
        }
    }
}

/// The names that are included and excluded at once.
pub fn conflicts(included: &[String], excluded: &[String]) -> (names: Vec<String>)
    ensures
        name_views(names@) == conflicting(name_views(included@), name_views(excluded@)),
{
    let mut names: Vec<String> = Vec::new();
    let mut i: usize = 0;
    proof {
        assert(name_views(included@).take(0) =~= Seq::<Seq<char>>::empty());
        assert(name_views(names@) =~= Seq::<Seq<char>>::empty());
    }
    while i < included.len()
        invariant
            i <= included.len(),
            name_views(names@) == conflicting(
                name_views(included@).take(i as int),
                name_views(excluded@),
            ),
        decreases included.len() - i,
    {
        let name = &included[i];
        proof {
            let next = name_views(included@).take(i + 1);
            assert(next.drop_last() =~= name_views(included@).take(i as int));
            assert(next.last() == name@);
        }
        if contains_name(excluded, name) && !contains_name(names.as_slice(), name) {
            let copy = name.clone();
            assert(name_views(names@.push(copy)) =~= name_views(names@).push(name@));
            names.push(copy);
        }
        i += 1;
    }
    assert(name_views(included@).take(i as int) =~= name_views(included@));
    names
}

/// The first of `names` that the registry does not know.
fn find_unknown(names: &[String], registry: &GroupRegistry) -> (unknown: Option<String>)
    ensures
        match unknown {
            Some(name) => first_unknown(name_views(names@), registry@) == Some(name@),
            None => first_unknown(name_views(names@), registry@) is None,
        },
{
    let required = REQUIRED_GROUP.to_owned();
    let mut i: usize = 0;
    assert(name_views(names@).skip(0) =~= name_views(names@));
    while i < names.len()
        invariant
            i <= names.len(),
            required@ == required_name(),
            first_unknown(name_views(names@), registry@) == first_unknown(
                name_views(names@).skip(i as int),
                registry@,
            ),
        decreases names.len() - i,
    {
        let name = &names[i];
        proof {
            let rest = name_views(names@).skip(i as int);
            assert(rest[0] == name@);
            assert(rest.skip(1) =~= name_views(names@).skip(i + 1));
        }
        if !(*name == required) && !registry.contains(name) {
            return Some(name.clone());
        }
        i += 1;
    }
    None
}

/// Checks a request against the registry, before any filtering.
pub fn validate(included: &[String], excluded: &[String], registry: &GroupRegistry) -> (verdict:
    Result<(), Error>)
    ensures
        match verdict {
            Ok(_) => validation(name_views(included@), name_views(excluded@), registry@) is Ok,
            Err(error) => validation(name_views(included@), name_views(excluded@), registry@)
                == Err::<(), ErrorView>(error@),
        },
{
    let both = conflicts(included, excluded);
    if both.len() > 0 {
        return Err(Error::DependencyGroupConflict(both));
    }
    if let Some(name) = find_unknown(included, registry) {
        return Err(Error::DependencyGroupNotFound(name));
    }
    if let Some(name) = find_unknown(excluded, registry) {
        return Err(Error::DependencyGroupNotFound(name));
    }
    Ok(())
}

/// Whether the request selects the group of that name.
pub fn selects(included: &[String], excluded: &[String], name: &String) -> (taken: bool)
    ensures
        taken == selected(name_views(included@), name_views(excluded@), name@),
{
    if included.len() == 0 {
        !contains_name(excluded, name)
    } else {
        contains_name(included, name) && !contains_name(excluded, name)
    }
}

/// The dependencies that the request selects from the registry, in order.
pub fn apply(included: &[String], excluded: &[String], registry: &GroupRegistry) -> (dependencies:
    Vec<Dependency>)
    ensures
        dependency_views(dependencies@) == filtered(
            name_views(included@),
            name_views(excluded@),
            registry@,
        ),
{
    let mut dependencies: Vec<Dependency> = Vec::new();
    let count: usize = registry.len();
    let mut g: usize = 0;
    proof {
        assert(registry@.take(0) =~= Seq::<GroupView>::empty());
        assert(dependency_views(dependencies@) =~= Seq::<DependencyView>::empty());
    }
    while g < count
        invariant
            g <= count,
            count == registry@.len(),
            dependency_views(dependencies@) == filtered(
                name_views(included@),
                name_views(excluded@),
                registry@.take(g as int),
            ),
        decreases count - g,
    {
        proof {
            let next = registry@.take(g + 1);
            assert(next.drop_last() =~= registry@.take(g as int));
            assert(next.last() == registry@[g as int]);
        }
        if let Some((name, group)) = registry.group_at(g) {
            if selects(included, excluded, name) {
                let ghost before = dependencies@;
                dependencies.extend_from_slice(group.as_slice());
                assert(dependency_views(dependencies@) =~= dependency_views(before)
                    + dependency_views(group@));
            }
        }
        g += 1;
    }
    assert(registry@.take(g as int) =~= registry@);
    dependencies
}

/// Validates the request and, where it is sound, selects the dependencies of
/// the groups it asks for.
pub fn process_dependencies(
    included: &[String],
    excluded: &[String],
    all_dependencies: &GroupRegistry,
) -> (processed: Result<Vec<Dependency>, Error>)
    ensures
        match processed {
            Ok(dependencies) => {
                &&& validation(name_views(included@), name_views(excluded@), all_dependencies@)
                    is Ok
                &&& dependency_views(dependencies@) == filtered(
                    name_views(included@),
                    name_views(excluded@),
                    all_dependencies@,
                )
            },
            Err(error) => validation(
                name_views(included@),
                name_views(excluded@),
                all_dependencies@,
            ) == Err::<(), ErrorView>(error@),
        },
{
    match validate(included, excluded, all_dependencies) {
        Ok(_) => Ok(apply(included, excluded, all_dependencies)),
        Err(error) => Err(error),
    }
}

/// A request for groups: the names to take and the names to leave out. Both
/// are empty where nothing is asked.
#[derive(Debug)]
pub struct FilterRequest {
    pub included: Vec<String>,
    pub excluded: Vec<String>,
}

impl FilterRequest {
    /// The request that two optional comma-separated texts stand for.
    pub fn parse(include_groups: &Option<String>, exclude_groups: &Option<String>) -> (request:
        FilterRequest)
        ensures
            name_views(request.included@) == requested_names(text_view(*include_groups)),
            name_views(request.excluded@) == requested_names(text_view(*exclude_groups)),
    {
        let included = match include_groups {
            Some(text) => split_commas(text.as_str()),
            None => Vec::new(),
        };
        let excluded = match exclude_groups {
            Some(text) => split_commas(text.as_str()),
            None => Vec::new(),
        };
        proof {
            if include_groups is None {
                assert(name_views(included@) =~= Seq::<Seq<char>>::empty());
            }
            if exclude_groups is None {
                assert(name_views(excluded@) =~= Seq::<Seq<char>>::empty());
            }
        }
        FilterRequest { included, excluded }
    }

    /// Checks the request against the registry.
    pub fn validate(&self, registry: &GroupRegistry) -> (verdict: Result<(), Error>)
        ensures
            match verdict {
                Ok(_) => validation(
                    name_views(self.included@),
                    name_views(self.excluded@),
                    registry@,
                ) is Ok,
                Err(error) => validation(
                    name_views(self.included@),
                    name_views(self.excluded@),
                    registry@,
                ) == Err::<(), ErrorView>(error@),
            },
    {
        validate(self.included.as_slice(), self.excluded.as_slice(), registry)
    }

    /// The dependencies that the request selects from the registry.
    pub fn apply(&self, registry: &GroupRegistry) -> (dependencies: Vec<Dependency>)
        ensures
            dependency_views(dependencies@) == filtered(
                name_views(self.included@),
                name_views(self.excluded@),
                registry@,
            ),
    {
        apply(self.included.as_slice(), self.excluded.as_slice(), registry)
    }
}

/// A name stands among the conflicting names exactly when it is both
/// included and excluded, and no name stands there twice.
pub proof fn lemma_conflicting_names(included: Seq<Seq<char>>, excluded: Seq<Seq<char>>)
    ensures
        forall|name: Seq<char>|
            #[trigger] conflicting(included, excluded).contains(name) <==> included.contains(name)
                && excluded.contains(name),
        conflicting(included, excluded).no_duplicates(),
    decreases included.len(),
{
    let names = conflicting(included, excluded);
    if included.len() == 0 {
    } else {
        let front = included.drop_last();
        let earlier = conflicting(front, excluded);
        let last = included.last();
        lemma_conflicting_names(front, excluded);
        assert forall|name: Seq<char>| #[trigger]
            names.contains(name) <==> included.contains(name) && excluded.contains(
                name,
            ) by {
            if names.contains(name) {
                let k = choose|k: int| 0 <= k < names.len() && names[k] == name;
                if k < earlier.len() {
                    assert(earlier[k] == name);
                    assert(earlier.contains(name));
                    let f = choose|f: int| 0 <= f < front.len() && front[f] == name;
                    assert(included[f] == name);
                } else {
                    assert(name == last);
                    assert(included[included.len() - 1] == name);
                }
            }
            if included.contains(name) && excluded.contains(name) {
                let f = choose|f: int| 0 <= f < included.len() && included[f] == name;
                if f < front.len() {
                    assert(front[f] == name);
                    assert(front.contains(name));
                    assert(earlier.contains(name));
                    let k = choose|k: int| 0 <= k < earlier.len() && earlier[k] == name;
                    assert(names[k] == name);
                } else if earlier.contains(name) {
                    let k = choose|k: int| 0 <= k < earlier.len() && earlier[k] == name;
                    assert(names[k] == name);
                } else {
                    assert(names[names.len() - 1] == name);
                }
            }
        }
    }
}

/// A request in which a name is both included and excluded fails with a
/// conflict that names it, whatever the registry holds.
pub proof fn lemma_conflict_is_reported(
    included: Seq<Seq<char>>,
    excluded: Seq<Seq<char>>,
    groups: Seq<GroupView>,
    name: Seq<char>,
)
    requires
        included.contains(name),
        excluded.contains(name),
    ensures
        validation(included, excluded, groups) == Err::<(), ErrorView>(
            ErrorView::DependencyGroupConflict(conflicting(included, excluded)),
        ),
        conflicting(included, excluded).contains(name),
{
    lemma_conflicting_names(included, excluded);
    assert(conflicting(included, excluded).contains(name));
}

/// Where the name at `index` is unknown and every name before it is known,
/// it is the first unknown name.
proof fn lemma_first_unknown_at(names: Seq<Seq<char>>, groups: Seq<GroupView>, index: int)
    requires
        0 <= index < names.len(),
        !known_group(groups, names[index]),
        forall|j: int| 0 <= j < index ==> known_group(groups, #[trigger] names[j]),
    ensures
        first_unknown(names, groups) == Some(names[index]),
    decreases index,
{
    if index > 0 {
        let rest = names.skip(1);
        assert(known_group(groups, names[0]));
        assert forall|j: int| 0 <= j < index - 1 implies known_group(
            groups,
            #[trigger] rest[j],
        ) by {
            assert(rest[j] == names[j + 1]);
        }
        assert(rest[index - 1] == names[index]);
        lemma_first_unknown_at(rest, groups, index - 1);
    }
}

/// Where every name is known, there is no first unknown name.
proof fn lemma_first_unknown_none(names: Seq<Seq<char>>, groups: Seq<GroupView>)
    requires
        forall|j: int| 0 <= j < names.len() ==> known_group(groups, #[trigger] names[j]),
    ensures
        first_unknown(names, groups) is None,
    decreases names.len(),
{
    if names.len() > 0 {
        let rest = names.skip(1);
        assert(known_group(groups, names[0]));
        assert forall|j: int| 0 <= j < rest.len() implies known_group(
            groups,
            #[trigger] rest[j],
        ) by {
            assert(rest[j] == names[j + 1]);
        }
        lemma_first_unknown_none(rest, groups);
    }
}

/// A request without conflict that names an unknown group fails with the
/// first such name: the one at `index` among the included names followed by
/// the excluded ones, where every name before it is known.
pub proof fn lemma_unknown_is_reported(
    included: Seq<Seq<char>>,
    excluded: Seq<Seq<char>>,
    groups: Seq<GroupView>,
    index: int,
)
    requires
        forall|name: Seq<char>| !(included.contains(name) && excluded.contains(name)),
        0 <= index < (included + excluded).len(),
        !known_group(groups, (included + excluded)[index]),
        forall|j: int| 0 <= j < index ==> known_group(groups, #[trigger] (included + excluded)[j]),
    ensures
        validation(included, excluded, groups) == Err::<(), ErrorView>(
            ErrorView::DependencyGroupNotFound((included + excluded)[index]),
        ),
{
    let names = included + excluded;
    lemma_conflicting_names(included, excluded);
    let both = conflicting(included, excluded);
    if both.len() > 0 {
        assert(both.contains(both[0]));
    }
    if index < included.len() {
        assert forall|j: int| 0 <= j < index implies known_group(
            groups,
            #[trigger] included[j],
        ) by {
            assert(names[j] == included[j]);
        }
        assert(names[index] == included[index]);
        lemma_first_unknown_at(included, groups, index);
    } else {
        assert forall|j: int| 0 <= j < included.len() implies known_group(
            groups,
            #[trigger] included[j],
        ) by {
            assert(names[j] == included[j]);
        }
        lemma_first_unknown_none(included, groups);
        let at = index - included.len();
        assert forall|j: int| 0 <= j < at implies known_group(groups, #[trigger] excluded[j]) by {
            assert(names[j + included.len()] == excluded[j]);
        }
        assert(names[index] == excluded[at]);
        lemma_first_unknown_at(excluded, groups, at);
    }
}

/// The first unknown name, where there is one, is a name of the list that
/// the registry does not know; where there is none, every name is known.
pub proof fn lemma_first_unknown(names: Seq<Seq<char>>, groups: Seq<GroupView>)
    ensures
        match first_unknown(names, groups) {
            Some(name) => names.contains(name) && !known_group(groups, name),
            None => forall|j: int|
                0 <= j < names.len() ==> known_group(groups, #[trigger] names[j]),
        },
    decreases names.len(),
{
    if names.len() > 0 {
        if !known_group(groups, names[0]) {
            assert(names.contains(names[0]));
        } else {
            let rest = names.skip(1);
            lemma_first_unknown(rest, groups);
            match first_unknown(rest, groups) {
                Some(name) => {
                    let k = choose|k: int| 0 <= k < rest.len() && rest[k] == name;
                    assert(names[k + 1] == name);
                },
                None => {
                    assert forall|j: int| 0 <= j < names.len() implies known_group(
                        groups,
                        #[trigger] names[j],
                    ) by {
                        if j > 0 {
                            assert(rest[j - 1] == names[j]);
                        }
                    }
                },
            }
        }
    }
}

/// A request passes exactly when no name is both included and excluded and
/// every name is known.
pub proof fn lemma_validation_passes(
    included: Seq<Seq<char>>,
    excluded: Seq<Seq<char>>,
    groups: Seq<GroupView>,
)
    ensures
        validation(included, excluded, groups) is Ok <==> {
            &&& forall|name: Seq<char>| !(included.contains(name) && excluded.contains(name))
            &&& forall|j: int|
                0 <= j < included.len() ==> known_group(groups, #[trigger] included[j])
            &&& forall|j: int|
                0 <= j < excluded.len() ==> known_group(groups, #[trigger] excluded[j])
        },
{
    lemma_conflicting_names(included, excluded);
    lemma_first_unknown(included, groups);
    lemma_first_unknown(excluded, groups);
    let both = conflicting(included, excluded);
    if both.len() > 0 {
        assert(both.contains(both[0]));
    } else {
        assert forall|name: Seq<char>| !(included.contains(name) && excluded.contains(name)) by {
            if included.contains(name) && excluded.contains(name) {
                assert(both.contains(name));
            }
        }
    }
    match first_unknown(included, groups) {
        Some(name) => {
            let k = choose|k: int| 0 <= k < included.len() && included[k] == name;
            assert(!known_group(groups, included[k]));
        },
        None => {},
    }
    match first_unknown(excluded, groups) {
        Some(name) => {
            let k = choose|k: int| 0 <= k < excluded.len() && excluded[k] == name;
            assert(!known_group(groups, excluded[k]));
        },
        None => {},
    }
}

/// The dependencies of two lists of groups, one after the other.
pub proof fn lemma_flattened_concat(front: Seq<GroupView>, back: Seq<GroupView>)
    ensures
        flattened(front + back) == flattened(front) + flattened(back),
    decreases back.len(),
{
    if back.len() == 0 {
        assert(front + back =~= front);
        assert(flattened(front) + flattened(back) =~= flattened(front));
    } else {
        lemma_flattened_concat(front, back.drop_last());
        assert((front + back).drop_last() =~= front + back.drop_last());
        assert((front + back).last() == back.last());
        assert(flattened(front + back) =~= flattened(front) + flattened(back));
    }
}

/// A request that names nothing selects every dependency of every group, in
/// the order of the registry.
pub proof fn lemma_empty_request_selects_every_group(groups: Seq<GroupView>)
    ensures
        validation(Seq::empty(), Seq::empty(), groups) is Ok,
        filtered(Seq::empty(), Seq::empty(), groups) == flattened(groups),
    decreases groups.len(),
{
    if groups.len() > 0 {
        lemma_empty_request_selects_every_group(groups.drop_last());
    }
}

/// For a well-formed manifest, a request that names nothing passes and
/// selects every declared dependency in declaration order, the required ones
/// first: nothing is left out and nothing changes place.
pub proof fn lemma_empty_request_selects_all(manifest: ManifestView)
    requires
        manifest.well_formed(),
    ensures
        validation(Seq::empty(), Seq::empty(), registry_of(manifest)) is Ok,
        filtered(Seq::empty(), Seq::empty(), registry_of(manifest)) == manifest.all_dependencies(),
{
    lemma_registry_of_well_formed(manifest);
    lemma_empty_request_selects_every_group(registry_of(manifest));
    let required = seq![manifest.required_group()];
    lemma_flattened_concat(required, manifest.optional_groups());
    assert(required.drop_last() =~= Seq::<GroupView>::empty());
    assert(flattened(Seq::<GroupView>::empty()) =~= Seq::<DependencyView>::empty());
    assert(flattened(required) =~= manifest.required_list());
}

} // verus!
