use huak::ops::update::{deduplicate, select_declared, UpdateAction, UpdateEvent};
use huak::ops::{update_project_dependencies, InstallOptions, UpdateOptions};
use huak::{Dependency, Group, Manifest, Package};

fn mock_project() -> Manifest {
    Manifest {
        required: Some(vec![Dependency::new("click", "==8.1.3")]),
        optional: Some(vec![Group {
            name: "dev".to_string(),
            dependencies: vec![
                Dependency::new("pytest", ">=6"),
                Dependency::new("black", "==22.8.0"),
                Dependency::new("isort", "==5.12.0"),
            ],
        }]),
    }
}

fn installed_after_update() -> Vec<Package> {
    vec![
        Package::new("black", "23.3.0"),
        Package::new("click", "8.1.3"),
        Package::new("pip", "23.1"),
        Package::new("pytest", "7.3.1"),
    ]
}

/// Runs the operation to its end. Hands back what the installer was asked to
/// update and the manifest that was written, if one was.
fn run(
    dependencies: &Option<Vec<Dependency>>,
    manifest: &Manifest,
    options: &UpdateOptions,
    installed: Vec<Package>,
) -> (Option<Vec<Dependency>>, Option<Manifest>) {
    let mut asked = None;
    let mut event = UpdateEvent::Started;
    loop {
        match update_project_dependencies(dependencies, manifest, options, event) {
            UpdateAction::UpdatePackages(targets, _) => {
                asked = Some(targets);
                event = UpdateEvent::Updated(installed.clone());
            }
            UpdateAction::WriteManifest(updated) => return (asked, Some(updated)),
            UpdateAction::Finish => return (asked, None),
        }
    }
}

#[test]
fn test_update_project_dependencies() {
    let manifest = mock_project();
    let options = UpdateOptions { install_options: InstallOptions { values: None } };

    let (asked, written) = run(&None, &manifest, &options, installed_after_update());

    assert_eq!(
        asked,
        Some(vec![
            Dependency::new("click", "==8.1.3"),
            Dependency::new("pytest", ">=6"),
            Dependency::new("black", "==22.8.0"),
            Dependency::new("isort", "==5.12.0"),
        ])
    );
    // The required dependency is pinned to the version it has already, so
    // the required list stays as it is.
    assert_eq!(written.unwrap().required, Some(vec![Dependency::new("click", "==8.1.3")]));
}

#[test]
fn test_update_project_optional_dependencies() {
    let manifest = mock_project();
    let options = UpdateOptions { install_options: InstallOptions { values: None } };

    let (_, written) = run(&None, &manifest, &options, installed_after_update());

    // What is not installed stays in place; what is installed follows, in
    // the order in which the environment lists it.
    assert_eq!(
        written.unwrap().optional,
        Some(vec![Group {
            name: "dev".to_string(),
            dependencies: vec![
                Dependency::new("isort", "==5.12.0"),
                Dependency::new("black", "==23.3.0"),
                Dependency::new("pytest", "==7.3.1"),
            ],
        }])
    );
}

#[test]
fn update_a_second_time_writes_nothing() {
    let options = UpdateOptions { install_options: InstallOptions { values: None } };
    let (_, written) = run(&None, &mock_project(), &options, installed_after_update());
    let written = written.unwrap();
    let (asked, again) = run(&None, &written, &options, installed_after_update());
    assert!(asked.is_some());
    assert_eq!(again, None);
}

#[test]
fn update_of_requested_dependencies_asks_for_the_declared_ones() {
    let options = UpdateOptions { install_options: InstallOptions { values: None } };
    let requested = Some(vec![
        Dependency::new("pytest", ">=7"),
        Dependency::new("requests", ""),
        Dependency::new("click", ""),
    ]);
    let (asked, _) = run(&requested, &mock_project(), &options, installed_after_update());
    assert_eq!(asked, Some(vec![Dependency::new("pytest", ">=7"), Dependency::new("click", "")]));
}

#[test]
fn update_of_undeclared_dependencies_does_nothing() {
    let options = UpdateOptions { install_options: InstallOptions { values: None } };
    let requested = Some(vec![Dependency::new("requests", "")]);
    let action =
        update_project_dependencies(&requested, &mock_project(), &options, UpdateEvent::Started);
    assert!(matches!(action, UpdateAction::Finish));

    let requested = Some(vec![]);
    let action =
        update_project_dependencies(&requested, &mock_project(), &options, UpdateEvent::Started);
    assert!(matches!(action, UpdateAction::Finish));
}

#[test]
fn update_of_an_empty_manifest_still_asks_the_installer() {
    let options = UpdateOptions { install_options: InstallOptions { values: None } };
    let manifest = Manifest { required: None, optional: None };
    let (asked, written) = run(&None, &manifest, &options, installed_after_update());
    assert_eq!(asked, Some(vec![]));
    assert_eq!(written, None);
}

#[test]
fn update_hands_the_install_options_on() {
    let options = UpdateOptions {
        install_options: InstallOptions { values: Some(vec!["--pre".to_string()]) },
    };
    match update_project_dependencies(&None, &mock_project(), &options, UpdateEvent::Started) {
        UpdateAction::UpdatePackages(_, handed) => {
            assert_eq!(handed.values, Some(vec!["--pre".to_string()]))
        }
        other => panic!("unexpected action: {:?}", other),
    }
}

#[test]
fn update_with_nothing_installed_writes_nothing() {
    let options = UpdateOptions { install_options: InstallOptions { values: None } };
    let action = update_project_dependencies(
        &None,
        &mock_project(),
        &options,
        UpdateEvent::Updated(vec![]),
    );
    assert!(matches!(action, UpdateAction::Finish));
}

#[test]
fn select_declared_matches_by_name_in_any_group() {
    let requested = vec![
        Dependency::new("isort", ""),
        Dependency::new("flask", ""),
        Dependency::new("click", ">=8"),
    ];
    assert_eq!(
        select_declared(&mock_project(), &requested),
        vec![Dependency::new("isort", ""), Dependency::new("click", ">=8")]
    );
    assert_eq!(select_declared(&Manifest { required: None, optional: None }, &requested), vec![]);
}

#[test]
fn deduplicate_drops_immediate_repetitions_only() {
    let a = || Dependency::new("a", "==1");
    let b = || Dependency::new("b", "");
    assert_eq!(deduplicate(&vec![]), vec![]);
    assert_eq!(deduplicate(&vec![a()]), vec![a()]);
    assert_eq!(deduplicate(&vec![a(), a(), b(), b(), b(), a()]), vec![a(), b(), a()]);
    // The same name with another requirement is another entry.
    assert_eq!(
        deduplicate(&vec![a(), Dependency::new("a", "==2")]),
        vec![a(), Dependency::new("a", "==2")]
    );
}
