//! Lint: which tools are needed, how they are run, and what the manifest
//! records of them afterwards.
//!
//! The operation alternates between work that only the caller can do
//! (asking the environment, installing, running a tool) and decisions. The
//! decisions are here: from where the operation stands and what the caller
//! reports, [`lint_project`] gives where it stands next and what the caller
//! is to do.

use vstd::prelude::*;
use vstd::string::*;
use crate::dependency::{
    dependency_views, package_views, Dependency, DependencyView, Package, PackageView,
};
use crate::manifest::{Manifest, ManifestView};
use crate::names::{name_views, optional_name_views};
use crate::ops::InstallOptions;
use crate::record::{
    lemma_recorded_idempotent, record_tools, recorded, undeclared, undeclared_names,
};

verus! {

/// The module that lints.
pub const LINTER: &'static str = "ruff";

/// The module that checks types.
pub const TYPE_CHECKER: &'static str = "mypy";

/// The group under which newly installed tools are recorded.
pub const DEFAULT_GROUP: &'static str = "dev";

/// What a lint run is asked to do.
#[derive(Debug)]
pub struct LintOptions {
    /// Further arguments for the linter, passed on verbatim.
    pub values: Option<Vec<String>>,
    /// Whether types are checked as well.
    pub include_types: bool,
    pub install_options: InstallOptions,
}

/// What the options are in contracts.
pub ghost struct LintOptionsView {
    pub values: Option<Seq<Seq<char>>>,
    pub include_types: bool,
    pub install_options: Option<Seq<Seq<char>>>,
}

impl View for LintOptions {
    type V = LintOptionsView;

    open spec fn view(&self) -> LintOptionsView {
        LintOptionsView {
            values: optional_name_views(self.values),
            include_types: self.include_types,
            install_options: self.install_options@,
        }
    }
}

/// Where a lint run stands: what it has asked for and waits to hear of.
#[derive(Debug, Clone, Copy, PartialEq, Eq, Structural)]
pub enum LintState {
    /// Nothing has been done yet.
    Start,
    /// Whether the linter is installed.
    ProbingLinter,
    /// The installation of the linter.
    InstallingLinter,
    /// Whether the type checker is installed.
    ProbingTypeChecker,
    /// The installation of the type checker.
    InstallingTypeChecker,
    /// The run of the type checker.
    RunningTypeChecker,
    /// The run of the linter.
    RunningLinter,
    /// The list of installed packages.
    ListingInstalled,
    /// The operation is over.
    Done,
}

/// What the caller reports.
#[derive(Debug)]
pub enum LintEvent {
    /// The operation begins.
    Started,
    /// The answer to a probe: whether the module is installed.
    Present(bool),
    /// The installation has succeeded.
    Installed,
    /// The tool has run and reported success.
    Finished,
    /// The installed packages, in the order in which the environment lists
    /// them.
    Packages(Vec<Package>),
}

/// What an event is in contracts.
pub ghost enum LintEventView {
    Started,
    Present(bool),
    Installed,
    Finished,
    Packages(Seq<PackageView>),
}

impl View for LintEvent {
    type V = LintEventView;

    open spec fn view(&self) -> LintEventView {
        match self {
            LintEvent::Started => LintEventView::Started,
            LintEvent::Present(present) => LintEventView::Present(*present),
            LintEvent::Installed => LintEventView::Installed,
            LintEvent::Finished => LintEventView::Finished,
            LintEvent::Packages(installed) => LintEventView::Packages(package_views(installed@)),
        }
    }
}

/// What the caller is to do next.
#[derive(Debug)]
pub enum LintAction {
    /// Ask the environment whether it has this module, and report `Present`.
    Probe(String),
    /// Install this dependency with these options, and report `Installed`.
    Install(Dependency, InstallOptions),
    /// Run the environment's interpreter with these arguments in the root of
    /// the workspace, and report `Finished`.
    Run(Vec<String>),
    /// List the installed packages, and report `Packages`.
    ListInstalled,
    /// Persist this manifest; the operation is over.
    WriteManifest(Manifest),
    /// The operation is over and nothing is to be written.
    Finish,
}

/// What an action is in contracts.
pub ghost enum LintActionView {
    Probe(Seq<char>),
    Install(DependencyView, Option<Seq<Seq<char>>>),
    Run(Seq<Seq<char>>),
    ListInstalled,
    WriteManifest(ManifestView),
    Finish,
}

impl View for LintAction {
    type V = LintActionView;

    open spec fn view(&self) -> LintActionView {
        match self {
            LintAction::Probe(module) => LintActionView::Probe(module@),
            LintAction::Install(dependency, options) => LintActionView::Install(
                dependency@,
                options@,
            ),
            LintAction::Run(arguments) => LintActionView::Run(name_views(arguments@)),
            LintAction::ListInstalled => LintActionView::ListInstalled,
            LintAction::WriteManifest(manifest) => LintActionView::WriteManifest(manifest@),
            LintAction::Finish => LintActionView::Finish,
        }
    }
}

/// A tool as a dependency: its name, with no constraint on the version.
pub open spec fn tool(name: Seq<char>) -> DependencyView {
    DependencyView { name, requirement: Seq::empty() }
}

/// The tools that a run needs: the linter, and the type checker where types
/// are checked.
pub open spec fn lint_tools(include_types: bool) -> Seq<DependencyView> {
    if include_types {
        seq![tool(LINTER@), tool(TYPE_CHECKER@)]
    } else {
        seq![tool(LINTER@)]
    }
}

/// The arguments that run the type checker over the workspace, leaving out
/// the directory of the environment.
pub open spec fn type_checker_arguments(environment: Seq<char>) -> Seq<Seq<char>> {
    seq!["-m"@, TYPE_CHECKER@, "."@, "--exclude"@, environment]
}

/// The arguments that run the linter over the workspace, followed by the
/// further arguments of the options.
pub open spec fn linter_arguments(values: Option<Seq<Seq<char>>>) -> Seq<Seq<char>> {
    seq!["-m"@, LINTER@, "check"@, "."@] + match values {
        Some(values) => values,
        None => Seq::empty(),
    }
}

/// The step once the linter is known to be installed: the type checker is
/// probed where types are checked, otherwise the linter runs.
pub open spec fn linter_ready(options: LintOptionsView) -> (LintState, LintActionView) {
    if options.include_types {
        (LintState::ProbingTypeChecker, LintActionView::Probe(TYPE_CHECKER@))
    } else {
        (LintState::RunningLinter, LintActionView::Run(linter_arguments(options.values)))
    }
}

/// The step that follows from a state and an event, or `None` where the
/// event does not answer what the state waits for.
///
/// The linter is probed and installed where it is missing. Where types are
/// checked, the same holds of the type checker, which then runs before the
/// linter. After the linter has run, the installed packages are listed only
/// if the manifest does not declare every tool; the tools found installed
/// are recorded under the default group, and the manifest is written only
/// where that changed it.
pub open spec fn lint_step(
    manifest: ManifestView,
    options: LintOptionsView,
    environment: Seq<char>,
    state: LintState,
    event: LintEventView,
) -> Option<(LintState, LintActionView)> {
    match (state, event) {
        (LintState::Start, LintEventView::Started) => Some(
            (LintState::ProbingLinter, LintActionView::Probe(LINTER@)),
        ),
        (LintState::ProbingLinter, LintEventView::Present(present)) => {
            if present {
                Some(linter_ready(options))
            } else {
                Some(
                    (
                        LintState::InstallingLinter,
                        LintActionView::Install(tool(LINTER@), options.install_options),
                    ),
                )
            }
        },
        (LintState::InstallingLinter, LintEventView::Installed) => Some(linter_ready(options)),
        (LintState::ProbingTypeChecker, LintEventView::Present(present)) => {
            if present {
                Some(
                    (
                        LintState::RunningTypeChecker,
                        LintActionView::Run(type_checker_arguments(environment)),
                    ),
                )
            } else {
                Some(
                    (
                        LintState::InstallingTypeChecker,
                        LintActionView::Install(tool(TYPE_CHECKER@), options.install_options),
                    ),
                )
            }
        },
        (LintState::InstallingTypeChecker, LintEventView::Installed) => Some(
            (
                LintState::RunningTypeChecker,
                LintActionView::Run(type_checker_arguments(environment)),
            ),
        ),
        (LintState::RunningTypeChecker, LintEventView::Finished) => Some(
            (LintState::RunningLinter, LintActionView::Run(linter_arguments(options.values))),
        ),
        (LintState::RunningLinter, LintEventView::Finished) => {
            if undeclared_names(manifest, lint_tools(options.include_types)).len() > 0 {
                Some((LintState::ListingInstalled, LintActionView::ListInstalled))
            } else {
                Some((LintState::Done, LintActionView::Finish))
            }
        },
        (LintState::ListingInstalled, LintEventView::Packages(installed)) => {
            let updated = recorded(
                manifest,
                lint_tools(options.include_types),
                installed,
                DEFAULT_GROUP@,
            );
            if updated == manifest {
                Some((LintState::Done, LintActionView::Finish))
            } else {
                Some((LintState::Done, LintActionView::WriteManifest(updated)))
            }
        },
        _ => None,
    }
}

/// The tools that a run needs.
pub fn tools_for(include_types: bool) -> (tools: Vec<Dependency>)
    ensures
        dependency_views(tools@) == lint_tools(include_types),
{
    let mut tools: Vec<Dependency> = Vec::new();
    tools.push(Dependency::new(LINTER, ""));
    if include_types {
        tools.push(Dependency::new(TYPE_CHECKER, ""));
    }
    proof {
        reveal_strlit("");
        assert(""@ =~= Seq::<char>::empty());
        assert(dependency_views(tools@) =~= lint_tools(include_types));
    }
    tools
}

/// The arguments that run the type checker.
pub fn type_checker_command(environment: &str) -> (arguments: Vec<String>)
    ensures
        name_views(arguments@) == type_checker_arguments(environment@),
{
    let mut arguments: Vec<String> = Vec::new();
    arguments.push("-m".to_owned());
    arguments.push(TYPE_CHECKER.to_owned());
    arguments.push(".".to_owned());
    arguments.push("--exclude".to_owned());
    arguments.push(environment.to_owned());
    assert(name_views(arguments@) =~= type_checker_arguments(environment@));
    arguments
}

/// The arguments that run the linter.
pub fn linter_command(values: &Option<Vec<String>>) -> (arguments: Vec<String>)
    ensures
        name_views(arguments@) == linter_arguments(optional_name_views(*values)),
{
    let mut arguments: Vec<String> = Vec::new();
    arguments.push("-m".to_owned());
    arguments.push(LINTER.to_owned());
    arguments.push("check".to_owned());
    arguments.push(".".to_owned());
    let ghost fixed = name_views(arguments@);
    assert(fixed =~= seq!["-m"@, LINTER@, "check"@, "."@]);
    if let Some(values) = values {
        arguments.extend_from_slice(values.as_slice());
        assert(name_views(arguments@) =~= fixed + name_views(values@));
    } else {
        assert(fixed + Seq::<Seq<char>>::empty() =~= fixed);
    }
    arguments
}

/// The step once the linter is known to be installed.
fn after_linter(options: &LintOptions) -> (step: (LintState, LintAction))
    ensures
        (step.0, step.1@) == linter_ready(options@),
{
    if options.include_types {
        (LintState::ProbingTypeChecker, LintAction::Probe(TYPE_CHECKER.to_owned()))
    } else {
        (LintState::RunningLinter, LintAction::Run(linter_command(&options.values)))
    }
}

/// Decides the next step of a lint run.
///
/// `manifest` is the snapshot that was loaded when the operation began and
/// `environment` the name of the environment's directory. The caller starts
/// with the state `Start` and the event `Started`, performs each action that
/// comes back and reports its outcome together with the state that came with
/// it, until the action is `WriteManifest` or `Finish`. A failure of the
/// environment, the installer or a tool ends the operation at the caller.
/// `None` comes back where the event does not answer the state.
pub fn lint_project(
    manifest: &Manifest,
    options: &LintOptions,
    environment: &str,
    state: LintState,
    event: LintEvent,
) -> (step: Option<(LintState, LintAction)>)
    ensures
        match step {
            Some((next, action)) => lint_step(manifest@, options@, environment@, state, event@)
                == Some((next, action@)),
            None => lint_step(manifest@, options@, environment@, state, event@) is None,
        },
{
    match (state, event) {
        (LintState::Start, LintEvent::Started) => Some(
            (LintState::ProbingLinter, LintAction::Probe(LINTER.to_owned())),
        ),
        (LintState::ProbingLinter, LintEvent::Present(present)) => {
            if present {
                Some(after_linter(options))
            } else {
                proof {
                    reveal_strlit("");
                    assert(""@ =~= Seq::<char>::empty());
                }
                Some(
                    (
                        LintState::InstallingLinter,
                        LintAction::Install(
                            Dependency::new(LINTER, ""),
                            options.install_options.clone(),
                        ),
                    ),
                )
            }
        },
        (LintState::InstallingLinter, LintEvent::Installed) => Some(after_linter(options)),
        (LintState::ProbingTypeChecker, LintEvent::Present(present)) => {
            if present {
                Some(
                    (
                        LintState::RunningTypeChecker,
                        LintAction::Run(type_checker_command(environment)),
                    ),
                )
            } else {
                proof {
                    reveal_strlit("");
                    assert(""@ =~= Seq::<char>::empty());
                }
                Some(
                    (
                        LintState::InstallingTypeChecker,
                        LintAction::Install(
                            Dependency::new(TYPE_CHECKER, ""),
                            options.install_options.clone(),
                        ),
                    ),
                )
            }
        },
        (LintState::InstallingTypeChecker, LintEvent::Installed) => Some(
            (LintState::RunningTypeChecker, LintAction::Run(type_checker_command(environment))),
        ),
        (LintState::RunningTypeChecker, LintEvent::Finished) => Some(
            (LintState::RunningLinter, LintAction::Run(linter_command(&options.values))),
        ),
        (LintState::RunningLinter, LintEvent::Finished) => {
            let tools = tools_for(options.include_types);
            let new_tools = undeclared(manifest, tools.as_slice());
            if new_tools.len() > 0 {
                Some((LintState::ListingInstalled, LintAction::ListInstalled))
            } else {
                Some((LintState::Done, LintAction::Finish))
            }
        },
        (LintState::ListingInstalled, LintEvent::Packages(installed)) => {
            let tools = tools_for(options.include_types);
            let group = DEFAULT_GROUP.to_owned();
            let updated = record_tools(manifest, tools.as_slice(), installed.as_slice(), &group);
            if updated == *manifest {
                Some((LintState::Done, LintAction::Finish))
            } else {
                Some((LintState::Done, LintAction::WriteManifest(updated)))
            }
        },
        _ => None,
    }
}

/// A second lint run with no install in between writes nothing: once the
/// installed tools are recorded, the report of the same packages ends the
/// operation without a write.
pub proof fn lemma_second_lint_writes_nothing(
    manifest: ManifestView,
    options: LintOptionsView,
    environment: Seq<char>,
    installed: Seq<PackageView>,
)
    ensures
        lint_step(
            recorded(manifest, lint_tools(options.include_types), installed, DEFAULT_GROUP@),
            options,
            environment,
            LintState::ListingInstalled,
            LintEventView::Packages(installed),
        ) == Some((LintState::Done, LintActionView::Finish)),
{
    lemma_recorded_idempotent(
        manifest,
        lint_tools(options.include_types),
        installed,
        DEFAULT_GROUP@,
    );
}

} // verus!
