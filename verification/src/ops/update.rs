//! Update: which dependencies the installer is asked to update, and what the
//! manifest records once it has done so.

use vstd::prelude::*;
use crate::dependency::{
    dependency_views, optional_dependency_views, package_views, Dependency, DependencyView,
    Package, PackageView,
};
use crate::manifest::{Manifest, ManifestView};
use crate::ops::InstallOptions;
use crate::reconcile::{lemma_reconciled_idempotent, reconcile, reconciled};

verus! {

/// What an update is asked to do.
#[derive(Debug)]
pub struct UpdateOptions {
    pub install_options: InstallOptions,
}

/// What the caller reports to the operation.
#[derive(Debug)]
pub enum UpdateEvent {
    /// The operation begins.
    Started,
    /// The installer has updated what it was asked to; these are the packages
    /// that are installed now, in the order in which the environment lists
    /// them.
    Updated(Vec<Package>),
}

/// What an event is in contracts.
pub ghost enum UpdateEventView {
    Started,
    Updated(Seq<PackageView>),
}

impl View for UpdateEvent {
    type V = UpdateEventView;

    open spec fn view(&self) -> UpdateEventView {
        match self {
            UpdateEvent::Started => UpdateEventView::Started,
            UpdateEvent::Updated(installed) => UpdateEventView::Updated(package_views(installed@)),
        }
    }
}

/// What the caller is to do next.
#[derive(Debug)]
pub enum UpdateAction {
    /// Have the installer update these dependencies with these options, then
    /// report the installed packages.
    UpdatePackages(Vec<Dependency>, InstallOptions),
    /// Persist this manifest; the operation is over.
    WriteManifest(Manifest),
    /// The operation is over and nothing is to be written.
    Finish,
}

/// What an action is in contracts.
pub ghost enum UpdateActionView {
    UpdatePackages(Seq<DependencyView>, Option<Seq<Seq<char>>>),
    WriteManifest(ManifestView),
    Finish,
}

impl View for UpdateAction {
    type V = UpdateActionView;

    open spec fn view(&self) -> UpdateActionView {
        match self {
            UpdateAction::UpdatePackages(dependencies, options) => UpdateActionView::UpdatePackages(
                dependency_views(dependencies@),
                options@,
            ),
            UpdateAction::WriteManifest(manifest) => UpdateActionView::WriteManifest(manifest@),
            UpdateAction::Finish => UpdateActionView::Finish,
        }
    }
}

/// The requested dependencies whose names the manifest declares, in the
/// order of the request.
pub open spec fn declared_among(manifest: ManifestView, requested: Seq<DependencyView>) -> Seq<
    DependencyView,
>
    decreases requested.len(),
{
    if requested.len() == 0 {
        Seq::empty()
    } else {
        let earlier = declared_among(manifest, requested.drop_last());
        if manifest.declares(requested.last().name) {
            earlier.push(requested.last())
        } else {
            earlier
        }
    }
}

/// The list without the entries that repeat the entry just before them.
pub open spec fn deduplicated(list: Seq<DependencyView>) -> Seq<DependencyView>
    decreases list.len(),
{
    if list.len() <= 1 {
        list
    } else {
        let earlier = deduplicated(list.drop_last());
        if list.last() == list[list.len() - 2] {
            earlier
        } else {
            earlier.push(list.last())
        }
    }
}

/// What the installer is asked to update. Where dependencies are requested,
/// those of them that the manifest declares under any group; otherwise every
/// declared dependency, without immediate repetitions.
pub open spec fn update_targets(
    manifest: ManifestView,
    requested: Option<Seq<DependencyView>>,
) -> Seq<DependencyView> {
    match requested {
        Some(requested) => declared_among(manifest, requested),
        None => deduplicated(manifest.all_dependencies()),
    }
}

/// The step that an event calls for. At the start the installer is asked to
/// update the targets, unless dependencies were requested and the manifest
/// declares none of them: then the operation is over. Once the installer is
/// done, the manifest is reconciled with what is installed and is written
/// only where that changed it.
pub open spec fn update_step(
    requested: Option<Seq<DependencyView>>,
    manifest: ManifestView,
    install_options: Option<Seq<Seq<char>>>,
    event: UpdateEventView,
) -> UpdateActionView {
    match event {
        UpdateEventView::Started => {
            if requested is Some && update_targets(manifest, requested).len() == 0 {
                UpdateActionView::Finish
            } else {
                UpdateActionView::UpdatePackages(
                    update_targets(manifest, requested),
                    install_options,
                )
            }
        },
        UpdateEventView::Updated(installed) => {
            if reconciled(manifest, installed) == manifest {
                UpdateActionView::Finish
            } else {
                UpdateActionView::WriteManifest(reconciled(manifest, installed))
            }
        },
    }
}

/// The requested dependencies that the manifest declares.
pub fn select_declared(manifest: &Manifest, requested: &Vec<Dependency>) -> (declared: Vec<
    Dependency,
>)
    ensures
        dependency_views(declared@) == declared_among(manifest@, dependency_views(requested@)),
{
    let mut declared: Vec<Dependency> = Vec::new();
    let mut i: usize = 0;
    proof {
        assert(dependency_views(requested@).take(0) =~= Seq::<DependencyView>::empty());
        assert(dependency_views(declared@) =~= Seq::<DependencyView>::empty());
    }
    while i < requested.len()
        invariant
            i <= requested.len(),
            dependency_views(declared@) == declared_among(
                manifest@,
                dependency_views(requested@).take(i as int),
            ),
        decreases requested.len() - i,
    {
        proof {
            let next = dependency_views(requested@).take(i + 1);
            assert(next.drop_last() =~= dependency_views(requested@).take(i as int));
            assert(next.last() == requested@[i as int]@);
        }
        if manifest.declares(&requested[i]) {
            let kept = requested[i].clone();
            assert(dependency_views(declared@.push(kept)) =~= dependency_views(declared@).push(
                kept@,
            ));
            declared.push(kept);
        }
        i += 1;
    }
    assert(dependency_views(requested@).take(i as int) =~= dependency_views(requested@));
    declared
}

/// Drops the entries that repeat the entry just before them.
pub fn deduplicate(list: &Vec<Dependency>) -> (kept: Vec<Dependency>)
    ensures
        dependency_views(kept@) == deduplicated(dependency_views(list@)),
{
    let mut kept: Vec<Dependency> = Vec::new();
    let mut i: usize = 0;
    proof {
        assert(dependency_views(list@).take(0) =~= Seq::<DependencyView>::empty());
        assert(dependency_views(kept@) =~= Seq::<DependencyView>::empty());
    }
    while i < list.len()
        invariant
            i <= list.len(),
            dependency_views(kept@) == deduplicated(dependency_views(list@).take(i as int)),
        decreases list.len() - i,
    {
        proof {
            let next = dependency_views(list@).take(i + 1);
            assert(next.drop_last() =~= dependency_views(list@).take(i as int));
            assert(next.last() == list@[i as int]@);
            if i > 0 {
                assert(next[next.len() - 2] == list@[i - 1]@);
            } else {
                assert(next =~= seq![list@[0]@]);
            }
        }
        if i == 0 || !(list[i] == list[i - 1]) {
            let entry = list[i].clone();
            assert(dependency_views(kept@.push(entry)) =~= dependency_views(kept@).push(entry@));
            kept.push(entry);
        }
        i += 1;
    }
    assert(dependency_views(list@).take(i as int) =~= dependency_views(list@));
    kept
}

/// Decides the next step of an update of the project's dependencies.
///
/// `dependencies` are the dependencies that the update was asked for, if any
/// were named; `manifest` is the snapshot that was loaded when the operation
/// began. The caller hands in `Started`, performs the action that comes back,
/// and reports `Updated` with the installed packages once the installer is
/// done. A failure of the installer ends the operation at the caller.
pub fn update_project_dependencies(
    dependencies: &Option<Vec<Dependency>>,
    manifest: &Manifest,
    options: &UpdateOptions,
    event: UpdateEvent,
) -> (action: UpdateAction)
    ensures
        action@ == update_step(
            optional_dependency_views(*dependencies),
            manifest@,
            options.install_options@,
            event@,
        ),
{
    match event {
        UpdateEvent::Started => {
            match dependencies {
                Some(requested) => {
                    let targets = select_declared(manifest, requested);
                    if targets.len() == 0 {
                        UpdateAction::Finish
                    } else {
                        UpdateAction::UpdatePackages(targets, options.install_options.clone())
                    }
                },
                None => {
                    let every = manifest.all_dependencies();
                    UpdateAction::UpdatePackages(
                        deduplicate(&every),
                        options.install_options.clone(),
                    )
                },
            }
        },
        UpdateEvent::Updated(installed) => {
            let updated = reconcile(manifest, installed.as_slice());
            if updated == *manifest {
                UpdateAction::Finish
            } else {
                UpdateAction::WriteManifest(updated)
            }
        },
    }
}

/// A second update with no install in between writes nothing: once a
/// manifest is reconciled with the installed packages, the report of the
/// same packages ends the operation without a write.
pub proof fn lemma_second_update_writes_nothing(
    requested: Option<Seq<DependencyView>>,
    manifest: ManifestView,
    install_options: Option<Seq<Seq<char>>>,
    installed: Seq<PackageView>,
)
    ensures
        update_step(
            requested,
            reconciled(manifest, installed),
            install_options,
            UpdateEventView::Updated(installed),
        ) == UpdateActionView::Finish,
{
    lemma_reconciled_idempotent(manifest, installed);
}

} // verus!
