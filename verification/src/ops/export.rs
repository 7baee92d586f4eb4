//! Export: the dependencies of the requested groups as the text of a
//! requirements file.

use vstd::prelude::*;
use vstd::string::*;
use crate::dependency::{dependency_views, Dependency, DependencyView};
use crate::error::{Error, ErrorView};
use crate::filter::{
    conflicting, filtered, lemma_conflict_is_reported, lemma_empty_request_selects_all,
    lemma_empty_request_selects_every_group, process_dependencies, validation, FilterRequest,
};
use crate::names::{requested_names, text_view};
use crate::manifest::{Manifest, ManifestView};
use crate::registry::{registry_of, GroupRegistry};

verus! {

/// What an export is asked to do.
#[derive(Debug)]
pub struct ExportOptions {
    /// The groups to take, separated by commas. Without it every group is
    /// taken that is not excluded.
    pub include_groups: Option<String>,
    /// The groups to leave out, separated by commas.
    pub exclude_groups: Option<String>,
    /// Where the file goes: an absolute path, or one relative to the root of
    /// the workspace.
    pub output_file: String,
}

/// What the options are in contracts.
pub ghost struct ExportOptionsView {
    pub include_groups: Option<Seq<char>>,
    pub exclude_groups: Option<Seq<char>>,
    pub output_file: Seq<char>,
}

impl View for ExportOptions {
    type V = ExportOptionsView;

    open spec fn view(&self) -> ExportOptionsView {
        ExportOptionsView {
            include_groups: text_view(self.include_groups),
            exclude_groups: text_view(self.exclude_groups),
            output_file: self.output_file@,
        }
    }
}

/// The place of the output file. A path that starts at the root of the file
/// system is used as it is; any other is joined under the workspace root,
/// with one separator between the two where the root does not end in one.
pub open spec fn resolved_path(output_file: Seq<char>, workspace_root: Seq<char>) -> Seq<char> {
    if output_file.len() > 0 && output_file[0] == '/' {
        output_file
    } else if workspace_root.len() == 0 || workspace_root.last() == '/' {
        workspace_root + output_file
    } else {
        workspace_root + seq!['/'] + output_file
    }
}

/// Resolves the path of the output file against the workspace root.
pub fn resolve_output_path(output_file: &str, workspace_root: &str) -> (path: String)
    ensures
        path@ == resolved_path(output_file@, workspace_root@),
{
    if !output_file.is_empty() && output_file.get_char(0) == '/' {
        return output_file.to_owned();
    }
    let mut path = workspace_root.to_owned();
    let length: usize = workspace_root.unicode_len();
    if length > 0 && workspace_root.get_char(length - 1) != '/' {
        proof {
            reveal_strlit("/");
        }
        path.append("/");
    }
    path.append(output_file);
    assert(path@ =~= resolved_path(output_file@, workspace_root@));
    path
}

/// The text of an exported file: one line for each dependency in the order
/// received, every line ended by a line feed, nothing sorted and nothing
/// removed.
pub open spec fn rendered(dependencies: Seq<DependencyView>) -> Seq<char>
    decreases dependencies.len(),
{
    if dependencies.len() == 0 {
        Seq::empty()
    } else {
        rendered(dependencies.drop_last()) + dependencies.last().line() + seq!['\n']
    }
}

/// Writes the dependencies out as the text of a file.
pub fn render(dependencies: &[Dependency]) -> (text: String)
    ensures
        text@ == rendered(dependency_views(dependencies@)),
{
    let mut text = String::new();
    let mut i: usize = 0;
    proof {
        reveal_strlit("\n");
        assert(dependency_views(dependencies@).take(0) =~= Seq::<DependencyView>::empty());
    }
    while i < dependencies.len()
        invariant
            i <= dependencies.len(),
            "\n"@ == seq!['\n'],
            text@ == rendered(dependency_views(dependencies@).take(i as int)),
        decreases dependencies.len() - i,
    {
        proof {
            let next = dependency_views(dependencies@).take(i + 1);
            assert(next.drop_last() =~= dependency_views(dependencies@).take(i as int));
            assert(next.last() == dependencies@[i as int]@);
        }
        let line = dependencies[i].to_string();
        text.append(line.as_str());
        text.append("\n");
        i += 1;
    }
    assert(dependency_views(dependencies@).take(i as int) =~= dependency_views(dependencies@));
    text
}

/// What an export yields for a manifest and the two optional lists of group
/// names: the text of the file, or the failure.
pub open spec fn export_text(
    manifest: ManifestView,
    include_groups: Option<Seq<char>>,
    exclude_groups: Option<Seq<char>>,
) -> Result<Seq<char>, ErrorView> {
    let included = requested_names(include_groups);
    let excluded = requested_names(exclude_groups);
    if manifest.required is None && manifest.optional is None {
        Err(ErrorView::ProjectDependenciesNotFound)
    } else {
        match validation(included, excluded, registry_of(manifest)) {
            Err(error) => Err(error),
            Ok(_) => Ok(rendered(filtered(included, excluded, registry_of(manifest)))),
        }
    }
}

/// What the whole operation yields. `missing_parent` is the directory that
/// is to hold the file, given where it does not exist: the export then fails
/// before anything else is looked at.
pub open spec fn export_outcome(
    manifest: ManifestView,
    options: ExportOptionsView,
    missing_parent: Option<Seq<char>>,
) -> Result<Seq<char>, ErrorView> {
    match missing_parent {
        Some(directory) => Err(ErrorView::OutputFilePathDoesNotExist(directory)),
        None => export_text(manifest, options.include_groups, options.exclude_groups),
    }
}

/// Computes the text that the export writes to its output file, or the
/// failure that keeps it from writing anything.
///
/// The caller resolves the output path with [`resolve_output_path`], looks
/// whether the directory that is to hold the file exists, and passes that
/// directory as `missing_parent` where it does not. Only with `Ok` in hand
/// does the caller create the file, so a failed export leaves no file behind.
pub fn export_dependencies_to_file(
    manifest: &Manifest,
    options: &ExportOptions,
    missing_parent: Option<String>,
) -> (exported: Result<String, Error>)
    ensures
        match exported {
            Ok(text) => export_outcome(manifest@, options@, text_view(missing_parent)) == Ok::<
                Seq<char>,
                ErrorView,
            >(text@),
            Err(error) => export_outcome(manifest@, options@, text_view(missing_parent)) == Err::<
                Seq<char>,
                ErrorView,
            >(error@),
        },
{
    if let Some(directory) = missing_parent {
        return Err(Error::OutputFilePathDoesNotExist(directory));
    }
    let all_dependencies = match GroupRegistry::build(manifest) {
        Ok(registry) => registry,
        Err(error) => {
            return Err(error);
        },
    };
    let request = FilterRequest::parse(&options.include_groups, &options.exclude_groups);
    let processed_dependencies = match process_dependencies(
        request.included.as_slice(),
        request.excluded.as_slice(),
        &all_dependencies,
    ) {
        Ok(dependencies) => dependencies,
        Err(error) => {
            return Err(error);
        },
    };
    Ok(render(processed_dependencies.as_slice()))
}

/// An export is a function of the manifest and the request alone: its text
/// is the rendering of what the request selects from the manifest's registry,
/// so the same manifest and the same request give the same text, and
/// selecting again and rendering gives the exported text.
pub proof fn lemma_export_is_rendered_selection(
    manifest: ManifestView,
    include_groups: Option<Seq<char>>,
    exclude_groups: Option<Seq<char>>,
)
    requires
        export_text(manifest, include_groups, exclude_groups) is Ok,
    ensures
        export_text(manifest, include_groups, exclude_groups) == Ok::<Seq<char>, ErrorView>(
            rendered(
                filtered(
                    requested_names(include_groups),
                    requested_names(exclude_groups),
                    registry_of(manifest),
                ),
            ),
        ),
{
}

/// An export without any request succeeds for every manifest that exposes a
/// structure, and its text is the rendering of what the empty request selects
/// when it is derived again over the same manifest. For a well-formed
/// manifest that is every declared dependency, in declaration order.
pub proof fn lemma_export_round_trip(manifest: ManifestView)
    requires
        !(manifest.required is None && manifest.optional is None),
    ensures
        export_text(manifest, None, None) == Ok::<Seq<char>, ErrorView>(
            rendered(filtered(Seq::empty(), Seq::empty(), registry_of(manifest))),
        ),
        manifest.well_formed() ==> export_text(manifest, None, None) == Ok::<
            Seq<char>,
            ErrorView,
        >(rendered(manifest.all_dependencies())),
{
    lemma_empty_request_selects_every_group(registry_of(manifest));
    if manifest.well_formed() {
        lemma_empty_request_selects_all(manifest);
    }
}

/// An export that is asked for a group and asked to leave it out fails with
/// a conflict that names the group, whatever else the request names: there is
/// no text, so nothing is written.
pub proof fn lemma_export_conflict(
    manifest: ManifestView,
    include_groups: Option<Seq<char>>,
    exclude_groups: Option<Seq<char>>,
    name: Seq<char>,
)
    requires
        !(manifest.required is None && manifest.optional is None),
        requested_names(include_groups).contains(name),
        requested_names(exclude_groups).contains(name),
    ensures
        export_text(manifest, include_groups, exclude_groups) == Err::<Seq<char>, ErrorView>(
            ErrorView::DependencyGroupConflict(
                conflicting(requested_names(include_groups), requested_names(exclude_groups)),
            ),
        ),
        conflicting(requested_names(include_groups), requested_names(exclude_groups)).contains(
            name,
        ),
{
    lemma_conflict_is_reported(
        requested_names(include_groups),
        requested_names(exclude_groups),
        registry_of(manifest),
        name,
    );
}

} // verus!
