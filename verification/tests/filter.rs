use huak::filter::{apply, conflicts, process_dependencies, selects, validate};
use huak::names::{contains_name, split_commas};
use huak::{Dependency, Error, FilterRequest, Group, GroupRegistry, Manifest};

fn names(words: &[&str]) -> Vec<String> {
    words.iter().map(|word| word.to_string()).collect()
}

fn lettered_project() -> Manifest {
    Manifest {
        required: Some(vec![Dependency::new("A", "")]),
        optional: Some(vec![
            Group {
                name: "dev".to_string(),
                dependencies: vec![Dependency::new("B", ""), Dependency::new("C", "")],
            },
            Group { name: "docs".to_string(), dependencies: vec![Dependency::new("D", "")] },
        ]),
    }
}

fn lettered_registry() -> GroupRegistry {
    GroupRegistry::build(&lettered_project()).unwrap()
}

fn letters(dependencies: &[Dependency]) -> String {
    dependencies.iter().map(|dependency| dependency.name()).collect::<Vec<_>>().join("")
}

#[test]
fn split_commas_takes_the_pieces_verbatim() {
    assert_eq!(split_commas("dev"), names(&["dev"]));
    assert_eq!(split_commas("dev,docs"), names(&["dev", "docs"]));
    assert_eq!(split_commas("dev, docs"), names(&["dev", " docs"]));
    assert_eq!(split_commas(""), names(&[""]));
    assert_eq!(split_commas(","), names(&["", ""]));
    assert_eq!(split_commas("a,,b,"), names(&["a", "", "b", ""]));
    assert_eq!(split_commas("dév,ドキュメント"), names(&["dév", "ドキュメント"]));
}

#[test]
fn split_commas_agrees_with_the_standard_split() {
    for text in ["", "a", ",", "a,b", ",a,", "a,,b", "x y,z", ",,,"] {
        let expected: Vec<String> = text.split(',').map(String::from).collect();
        assert_eq!(split_commas(text), expected);
        assert_eq!(split_commas(text).join(","), text);
    }
}

#[test]
fn parse_gives_an_empty_request_by_default() {
    let request = FilterRequest::parse(&None, &None);
    assert!(request.included.is_empty());
    assert!(request.excluded.is_empty());

    let request = FilterRequest::parse(&Some("dev,docs".to_string()), &Some("docs".to_string()));
    assert_eq!(request.included, names(&["dev", "docs"]));
    assert_eq!(request.excluded, names(&["docs"]));
}

#[test]
fn contains_name_looks_for_the_whole_name() {
    let list = names(&["dev", "docs"]);
    assert!(contains_name(&list, &"dev".to_string()));
    assert!(contains_name(&list, &"docs".to_string()));
    assert!(!contains_name(&list, &"doc".to_string()));
    assert!(!contains_name(&[], &"dev".to_string()));
}

#[test]
fn conflicts_lists_every_conflicting_name_once() {
    assert_eq!(conflicts(&names(&["a", "b", "c"]), &names(&["c", "x", "a"])), names(&["a", "c"]));
    assert_eq!(conflicts(&names(&["a", "b", "a"]), &names(&["a", "a"])), names(&["a"]));
    assert_eq!(conflicts(&names(&["a"]), &names(&["b"])), names(&[]));
    assert_eq!(conflicts(&[], &names(&["b"])), names(&[]));
}

#[test]
fn validate_reports_every_conflict_before_anything_else() {
    let registry = lettered_registry();
    assert_eq!(
        validate(&names(&["docs", "dev", "tests"]), &names(&["dev", "docs"]), &registry),
        Err(Error::DependencyGroupConflict(names(&["docs", "dev"])))
    );
    // A conflicting name that no group bears is a conflict all the same.
    assert_eq!(
        validate(&names(&["tests"]), &names(&["tests"]), &registry),
        Err(Error::DependencyGroupConflict(names(&["tests"])))
    );
}

#[test]
fn validate_reports_the_first_unknown_name() {
    let registry = lettered_registry();
    assert_eq!(
        validate(&names(&["dev", "tests", "bench"]), &[], &registry),
        Err(Error::DependencyGroupNotFound("tests".to_string()))
    );
    assert_eq!(
        validate(&names(&["dev"]), &names(&["bench", "tests"]), &registry),
        Err(Error::DependencyGroupNotFound("bench".to_string()))
    );
    assert_eq!(
        validate(&names(&["tests"]), &names(&["bench"]), &registry),
        Err(Error::DependencyGroupNotFound("tests".to_string()))
    );
}

#[test]
fn validate_passes_known_names_and_the_reserved_one() {
    let registry = lettered_registry();
    assert_eq!(validate(&[], &[], &registry), Ok(()));
    assert_eq!(validate(&names(&["dev", "required"]), &names(&["docs"]), &registry), Ok(()));

    // The reserved name may be named even where no group is registered under it.
    let mut bare = GroupRegistry::new();
    bare.insert("dev".to_string(), vec![]);
    assert_eq!(validate(&names(&["required"]), &[], &bare), Ok(()));
    assert_eq!(validate(&[], &names(&["required"]), &bare), Ok(()));
}

#[test]
fn selects_follows_the_rule_of_the_two_lists() {
    let dev = "dev".to_string();
    assert!(selects(&[], &[], &dev));
    assert!(!selects(&[], &names(&["dev"]), &dev));
    assert!(selects(&[], &names(&["docs"]), &dev));
    assert!(selects(&names(&["dev"]), &[], &dev));
    assert!(!selects(&names(&["docs"]), &[], &dev));
    assert!(!selects(&names(&["dev"]), &names(&["dev"]), &dev));
    assert!(selects(&names(&["docs", "dev"]), &names(&["docs"]), &dev));
}

#[test]
fn apply_concatenates_the_selected_groups_in_order() {
    let registry = lettered_registry();
    assert_eq!(letters(&apply(&[], &[], &registry)), "ABCD");
    assert_eq!(letters(&apply(&names(&["dev"]), &[], &registry)), "BC");
    assert_eq!(letters(&apply(&names(&["docs", "dev"]), &[], &registry)), "BCD");
    assert_eq!(letters(&apply(&[], &names(&["dev"]), &registry)), "AD");
    assert_eq!(letters(&apply(&[], &names(&["required", "docs"]), &registry)), "BC");
    assert_eq!(letters(&apply(&names(&["dev", "docs"]), &names(&["dev"]), &registry)), "D");
    assert_eq!(letters(&apply(&names(&["tests"]), &[], &registry)), "");
}

#[test]
fn apply_with_an_empty_request_returns_every_dependency() {
    let manifest = Manifest {
        required: Some(vec![Dependency::new("click", "==8.1.3"), Dependency::new("rich", "")]),
        optional: Some(vec![
            Group { name: "dev".to_string(), dependencies: vec![Dependency::new("pytest", ">=6")] },
            Group { name: "empty".to_string(), dependencies: vec![] },
            Group { name: "docs".to_string(), dependencies: vec![Dependency::new("rich", "")] },
        ]),
    };
    let registry = GroupRegistry::build(&manifest).unwrap();
    let request = FilterRequest::parse(&None, &None);
    assert_eq!(request.validate(&registry), Ok(()));
    assert_eq!(request.apply(&registry), manifest.all_dependencies());
    assert_eq!(
        request.apply(&registry),
        vec![
            Dependency::new("click", "==8.1.3"),
            Dependency::new("rich", ""),
            Dependency::new("pytest", ">=6"),
            Dependency::new("rich", ""),
        ]
    );
}

#[test]
fn process_dependencies_validates_before_it_selects() {
    let registry = lettered_registry();
    assert_eq!(
        process_dependencies(&names(&["dev"]), &[], &registry),
        Ok(vec![Dependency::new("B", ""), Dependency::new("C", "")])
    );
    assert_eq!(
        process_dependencies(&names(&["dev"]), &names(&["dev"]), &registry),
        Err(Error::DependencyGroupConflict(names(&["dev"])))
    );
    assert_eq!(
        process_dependencies(&names(&["tests"]), &[], &registry),
        Err(Error::DependencyGroupNotFound("tests".to_string()))
    );
}
