use std::collections::HashSet;

use huak::filter::process_dependencies;
use huak::ops::export::{render, resolve_output_path};
use huak::ops::{export_dependencies_to_file, ExportOptions};
use huak::{Dependency, Error, Group, GroupRegistry, Manifest};

fn mock_project() -> Manifest {
    Manifest {
        required: Some(vec![Dependency::new("click", "==8.1.3")]),
        optional: Some(vec![Group {
            name: "dev".to_string(),
            dependencies: vec![
                Dependency::new("pytest", ">=6"),
                Dependency::new("black", "==22.8.0"),
                Dependency::new("isort", "==5.12.0"),
            ],
        }]),
    }
}

fn lettered_project() -> Manifest {
    Manifest {
        required: Some(vec![Dependency::new("A", "")]),
        optional: Some(vec![
            Group {
                name: "dev".to_string(),
                dependencies: vec![Dependency::new("B", ""), Dependency::new("C", "")],
            },
            Group { name: "docs".to_string(), dependencies: vec![Dependency::new("D", "")] },
        ]),
    }
}

fn options(included: Option<&str>, excluded: Option<&str>) -> ExportOptions {
    ExportOptions {
        include_groups: included.map(String::from),
        exclude_groups: excluded.map(String::from),
        output_file: "requirements.txt".to_string(),
    }
}

#[test]
fn test_export_dependencies_to_file() {
    let manifest = mock_project();
    let options = ExportOptions {
        include_groups: None,
        exclude_groups: None,
        output_file: "requirements.txt".to_string(),
    };

    let requirements_txt = export_dependencies_to_file(&manifest, &options, None).unwrap();
    let requirements: HashSet<String> =
        requirements_txt.lines().map(|s| s.to_string()).collect();

    let mut all_dependencies = GroupRegistry::new();
    all_dependencies.insert("required".to_string(), manifest.required.clone().unwrap());
    for group in manifest.optional.as_ref().unwrap() {
        all_dependencies.insert(group.name.clone(), group.dependencies.clone());
    }

    let processed_dependencies = process_dependencies(&[], &[], &all_dependencies).unwrap();

    let processed_requirements: HashSet<String> =
        processed_dependencies.iter().map(|s| s.to_string()).collect();

    assert_eq!(requirements, processed_requirements);
    assert_eq!(requirements.len(), 4);
}

#[test]
fn test_export_dependencies_to_file_conflicting_groups() {
    let manifest = mock_project();
    let options = ExportOptions {
        include_groups: Some("dev".to_string()),
        exclude_groups: Some("dev".to_string()),
        output_file: "requirements.txt".to_string(),
    };

    let result = export_dependencies_to_file(&manifest, &options, None);
    assert!(result.is_err());
    match result {
        Err(Error::DependencyGroupConflict(_)) => (),
        _ => panic!("Expected Error::DependencyGroupConflict"),
    }
}

#[test]
fn export_without_request_lists_every_group_in_order() {
    let text = export_dependencies_to_file(&mock_project(), &options(None, None), None).unwrap();
    assert_eq!(text, "click ==8.1.3\npytest >=6\nblack ==22.8.0\nisort ==5.12.0\n");
}

#[test]
fn export_of_one_group_keeps_its_order_and_omits_the_rest() {
    let text =
        export_dependencies_to_file(&lettered_project(), &options(Some("dev"), None), None)
            .unwrap();
    assert_eq!(text, "B\nC\n");
    assert_eq!(text.lines().collect::<Vec<_>>(), vec!["B", "C"]);
}

#[test]
fn export_of_a_group_asked_for_and_excluded_fails_with_its_name() {
    let result =
        export_dependencies_to_file(&lettered_project(), &options(Some("dev"), Some("dev")), None);
    assert_eq!(result, Err(Error::DependencyGroupConflict(vec!["dev".to_string()])));
}

#[test]
fn export_into_a_missing_directory_fails_before_anything_else() {
    let missing = Some("/no/such/directory".to_string());
    let result = export_dependencies_to_file(&lettered_project(), &options(None, None), missing);
    assert_eq!(result, Err(Error::OutputFilePathDoesNotExist("/no/such/directory".to_string())));

    // The directory is looked at first: not even a contradictory request or
    // a manifest without dependencies is reported instead.
    let missing = Some("/no/such/directory".to_string());
    let result = export_dependencies_to_file(
        &Manifest { required: None, optional: None },
        &options(Some("dev"), Some("dev")),
        missing,
    );
    assert_eq!(result, Err(Error::OutputFilePathDoesNotExist("/no/such/directory".to_string())));
}

#[test]
fn export_of_a_manifest_without_structures_fails() {
    let manifest = Manifest { required: None, optional: None };
    let result = export_dependencies_to_file(&manifest, &options(None, None), None);
    assert_eq!(result, Err(Error::ProjectDependenciesNotFound));
}

#[test]
fn export_of_a_manifest_with_one_structure_succeeds() {
    let only_required = Manifest { required: Some(vec![Dependency::new("A", "")]), optional: None };
    assert_eq!(
        export_dependencies_to_file(&only_required, &options(None, None), None),
        Ok("A\n".to_string())
    );
    let only_optional = Manifest {
        required: None,
        optional: Some(vec![Group {
            name: "dev".to_string(),
            dependencies: vec![Dependency::new("B", "<2")],
        }]),
    };
    assert_eq!(
        export_dependencies_to_file(&only_optional, &options(None, None), None),
        Ok("B <2\n".to_string())
    );
    let empty = Manifest { required: Some(vec![]), optional: Some(vec![]) };
    assert_eq!(
        export_dependencies_to_file(&empty, &options(None, None), None),
        Ok(String::new())
    );
}

#[test]
fn export_of_an_unknown_group_fails_with_its_name() {
    let result =
        export_dependencies_to_file(&lettered_project(), &options(Some("dev,tests"), None), None);
    assert_eq!(result, Err(Error::DependencyGroupNotFound("tests".to_string())));
    let result =
        export_dependencies_to_file(&lettered_project(), &options(None, Some("tests")), None);
    assert_eq!(result, Err(Error::DependencyGroupNotFound("tests".to_string())));
}

#[test]
fn export_treats_the_required_group_as_any_other() {
    let manifest = lettered_project();
    assert_eq!(
        export_dependencies_to_file(&manifest, &options(Some("required"), None), None),
        Ok("A\n".to_string())
    );
    assert_eq!(
        export_dependencies_to_file(&manifest, &options(None, Some("required")), None),
        Ok("B\nC\nD\n".to_string())
    );
    assert_eq!(
        export_dependencies_to_file(&manifest, &options(Some("docs,required"), None), None),
        Ok("A\nD\n".to_string())
    );
    assert_eq!(
        export_dependencies_to_file(&manifest, &options(Some("dev,docs"), Some("docs")), None),
        Err(Error::DependencyGroupConflict(vec!["docs".to_string()]))
    );
}

#[test]
fn export_of_an_empty_request_text_names_the_empty_group() {
    // An empty text is one empty name, which no group of the manifest bears.
    let result = export_dependencies_to_file(&lettered_project(), &options(Some(""), None), None);
    assert_eq!(result, Err(Error::DependencyGroupNotFound(String::new())));
}

#[test]
fn export_is_the_same_text_when_run_again() {
    let manifest = mock_project();
    let first = export_dependencies_to_file(&manifest, &options(None, None), None).unwrap();
    let again = export_dependencies_to_file(&manifest, &options(None, None), None).unwrap();
    assert_eq!(first, again);

    let registry = GroupRegistry::build(&manifest).unwrap();
    let selected = process_dependencies(&[], &[], &registry).unwrap();
    assert_eq!(render(&selected), first);
}

#[test]
fn export_keeps_a_dependency_that_two_groups_hold() {
    let manifest = Manifest {
        required: Some(vec![Dependency::new("A", "")]),
        optional: Some(vec![Group {
            name: "dev".to_string(),
            dependencies: vec![Dependency::new("A", ""), Dependency::new("B", "")],
        }]),
    };
    assert_eq!(
        export_dependencies_to_file(&manifest, &options(None, None), None),
        Ok("A\nA\nB\n".to_string())
    );
}

#[test]
fn render_writes_one_line_for_each_dependency() {
    assert_eq!(render(&[]), "");
    assert_eq!(render(&[Dependency::new("click", "")]), "click\n");
    assert_eq!(
        render(&[Dependency::new("click", "==8.1.3"), Dependency::new("pytest", "")]),
        "click ==8.1.3\npytest\n"
    );
}

#[test]
fn resolve_output_path_joins_relative_paths_under_the_root() {
    assert_eq!(
        resolve_output_path("requirements.txt", "/work/project"),
        "/work/project/requirements.txt"
    );
    assert_eq!(
        resolve_output_path("out/requirements.txt", "/work/project/"),
        "/work/project/out/requirements.txt"
    );
    assert_eq!(resolve_output_path("requirements.txt", ""), "requirements.txt");
    assert_eq!(resolve_output_path("", "/work"), "/work/");
}

#[test]
fn resolve_output_path_uses_absolute_paths_verbatim() {
    assert_eq!(
        resolve_output_path("/tmp/requirements.txt", "/work/project"),
        "/tmp/requirements.txt"
    );
    assert_eq!(resolve_output_path("/", "/work/project"), "/");
}
