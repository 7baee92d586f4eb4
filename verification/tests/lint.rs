use huak::ops::lint::{
    linter_command, tools_for, type_checker_command, LintAction, LintEvent, LintState,
    DEFAULT_GROUP, LINTER, TYPE_CHECKER,
};
use huak::ops::{lint_project, InstallOptions, LintOptions};
use huak::{Dependency, Group, Manifest, Package};

fn mock_project() -> Manifest {
    Manifest {
        required: Some(vec![Dependency::new("click", "==8.1.3")]),
        optional: Some(vec![Group {
            name: "dev".to_string(),
            dependencies: vec![
                Dependency::new("pytest", ">=6"),
                Dependency::new("black", "==22.8.0"),
                Dependency::new("isort", "==5.12.0"),
            ],
        }]),
    }
}

/// An environment that lives in memory: the modules it has, and a record of
/// what was asked of it.
struct Environment {
    installed: Vec<Package>,
    probes: Vec<String>,
    installs: Vec<String>,
    runs: Vec<Vec<String>>,
    listings: usize,
}

impl Environment {
    fn with(installed: Vec<Package>) -> Environment {
        Environment { installed, probes: vec![], installs: vec![], runs: vec![], listings: 0 }
    }

    fn has(&self, module: &str) -> bool {
        self.installed.iter().any(|package| package.name() == module)
    }
}

/// Runs the operation to its end against the environment. Hands back the
/// manifest that was written, if one was.
fn run(
    manifest: &Manifest,
    options: &LintOptions,
    environment: &mut Environment,
) -> Option<Manifest> {
    let mut state = LintState::Start;
    let mut event = LintEvent::Started;
    loop {
        let (next, action) = lint_project(manifest, options, ".venv", state, event).unwrap();
        state = next;
        event = match action {
            LintAction::Probe(module) => {
                let present = environment.has(&module);
                environment.probes.push(module);
                LintEvent::Present(present)
            }
            LintAction::Install(dependency, _) => {
                environment.installs.push(dependency.to_string());
                let version = if dependency.name() == "ruff" { "0.0.260" } else { "1.1.1" };
                environment.installed.push(Package::new(dependency.name(), version));
                LintEvent::Installed
            }
            LintAction::Run(arguments) => {
                environment.runs.push(arguments);
                LintEvent::Finished
            }
            LintAction::ListInstalled => {
                environment.listings += 1;
                LintEvent::Packages(environment.installed.clone())
            }
            LintAction::WriteManifest(updated) => {
                assert_eq!(state, LintState::Done);
                return Some(updated);
            }
            LintAction::Finish => {
                assert_eq!(state, LintState::Done);
                return None;
            }
        };
    }
}

fn words(arguments: &[&str]) -> Vec<String> {
    arguments.iter().map(|word| word.to_string()).collect()
}

#[test]
fn test_lint_project() {
    let manifest = mock_project();
    let options = LintOptions {
        values: None,
        include_types: true,
        install_options: InstallOptions { values: None },
    };
    let mut environment = Environment::with(vec![Package::new("click", "8.1.3")]);

    let written = run(&manifest, &options, &mut environment).unwrap();

    assert_eq!(environment.probes, words(&["ruff", "mypy"]));
    assert_eq!(environment.installs, words(&["ruff", "mypy"]));
    assert_eq!(
        environment.runs,
        vec![
            words(&["-m", "mypy", ".", "--exclude", ".venv"]),
            words(&["-m", "ruff", "check", "."]),
        ]
    );
    let mut expected = mock_project();
    let dev = &mut expected.optional.as_mut().unwrap()[0].dependencies;
    dev.push(Dependency::new("ruff", "==0.0.260"));
    dev.push(Dependency::new("mypy", "==1.1.1"));
    assert_eq!(written, expected);
}

#[test]
fn lint_hands_the_further_arguments_to_the_linter() {
    let manifest = mock_project();
    let options = LintOptions {
        values: Some(vec![String::from("--fix")]),
        include_types: true,
        install_options: InstallOptions { values: None },
    };
    let mut environment = Environment::with(vec![
        Package::new("ruff", "0.0.260"),
        Package::new("mypy", "1.1.1"),
    ]);

    run(&manifest, &options, &mut environment);

    assert!(environment.installs.is_empty());
    assert_eq!(
        environment.runs.last().unwrap(),
        &words(&["-m", "ruff", "check", ".", "--fix"])
    );
}

#[test]
fn lint_without_types_leaves_the_type_checker_alone() {
    let options = LintOptions {
        values: None,
        include_types: false,
        install_options: InstallOptions { values: None },
    };
    let mut environment = Environment::with(vec![]);
    let written = run(&mock_project(), &options, &mut environment).unwrap();

    assert_eq!(environment.probes, words(&["ruff"]));
    assert_eq!(environment.installs, words(&["ruff"]));
    assert_eq!(environment.runs, vec![words(&["-m", "ruff", "check", "."])]);
    let dev = &written.optional.as_ref().unwrap()[0];
    assert_eq!(dev.name, "dev");
    assert_eq!(dev.dependencies.last().unwrap(), &Dependency::new("ruff", "==0.0.260"));
    assert_eq!(dev.dependencies.len(), 4);
}

#[test]
fn lint_of_a_manifest_that_declares_the_tools_writes_nothing() {
    let mut manifest = mock_project();
    manifest.required.as_mut().unwrap().push(Dependency::new("ruff", ""));
    manifest.optional.as_mut().unwrap()[0].dependencies.push(Dependency::new("mypy", ">=1"));
    let options = LintOptions {
        values: None,
        include_types: true,
        install_options: InstallOptions { values: None },
    };
    let mut environment =
        Environment::with(vec![Package::new("ruff", "0.0.260"), Package::new("mypy", "1.1.1")]);

    assert_eq!(run(&manifest, &options, &mut environment), None);
    // The installed packages are not even asked for.
    assert_eq!(environment.listings, 0);
}

#[test]
fn lint_a_second_time_writes_nothing() {
    let options = LintOptions {
        values: None,
        include_types: true,
        install_options: InstallOptions { values: None },
    };
    let mut environment = Environment::with(vec![]);
    let written = run(&mock_project(), &options, &mut environment).unwrap();
    assert_eq!(run(&written, &options, &mut environment), None);
}

#[test]
fn lint_creates_the_default_group_where_it_is_missing() {
    let manifest = Manifest { required: Some(vec![Dependency::new("click", "")]), optional: None };
    let options = LintOptions {
        values: None,
        include_types: false,
        install_options: InstallOptions { values: None },
    };
    let mut environment = Environment::with(vec![Package::new("ruff", "0.1.0")]);
    let written = run(&manifest, &options, &mut environment).unwrap();
    assert_eq!(
        written,
        Manifest {
            required: Some(vec![Dependency::new("click", "")]),
            optional: Some(vec![Group {
                name: DEFAULT_GROUP.to_string(),
                dependencies: vec![Dependency::new("ruff", "==0.1.0")],
            }]),
        }
    );
}

#[test]
fn lint_hands_the_install_options_on() {
    let options = LintOptions {
        values: None,
        include_types: false,
        install_options: InstallOptions { values: Some(words(&["--no-cache-dir"])) },
    };
    let step = lint_project(
        &mock_project(),
        &options,
        ".venv",
        LintState::ProbingLinter,
        LintEvent::Present(false),
    );
    match step {
        Some((LintState::InstallingLinter, LintAction::Install(dependency, handed))) => {
            assert_eq!(dependency, Dependency::new("ruff", ""));
            assert_eq!(handed.values, Some(words(&["--no-cache-dir"])));
        }
        other => panic!("unexpected step: {:?}", other),
    }
}

#[test]
fn lint_refuses_an_event_that_answers_nothing() {
    let options = LintOptions {
        values: None,
        include_types: true,
        install_options: InstallOptions { values: None },
    };
    let manifest = mock_project();
    assert!(lint_project(&manifest, &options, ".venv", LintState::Start, LintEvent::Finished)
        .is_none());
    assert!(lint_project(&manifest, &options, ".venv", LintState::Done, LintEvent::Started)
        .is_none());
    assert!(lint_project(
        &manifest,
        &options,
        ".venv",
        LintState::RunningLinter,
        LintEvent::Present(true)
    )
    .is_none());
    assert!(lint_project(
        &manifest,
        &options,
        ".venv",
        LintState::ListingInstalled,
        LintEvent::Installed
    )
    .is_none());
}

#[test]
fn lint_commands_are_spelled_out() {
    assert_eq!(LINTER, "ruff");
    assert_eq!(TYPE_CHECKER, "mypy");
    assert_eq!(type_checker_command("env"), words(&["-m", "mypy", ".", "--exclude", "env"]));
    assert_eq!(linter_command(&None), words(&["-m", "ruff", "check", "."]));
    assert_eq!(
        linter_command(&Some(words(&["--fix", "--quiet"]))),
        words(&["-m", "ruff", "check", ".", "--fix", "--quiet"])
    );
    assert_eq!(tools_for(false), vec![Dependency::new("ruff", "")]);
    assert_eq!(tools_for(true), vec![Dependency::new("ruff", ""), Dependency::new("mypy", "")]);
}
