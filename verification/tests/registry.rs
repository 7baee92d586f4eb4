use huak::{Dependency, Error, Group, GroupRegistry, Manifest, REQUIRED_GROUP};

fn entry(registry: &GroupRegistry, index: usize) -> (String, Vec<Dependency>) {
    let (name, dependencies) = registry.group_at(index).unwrap();
    (name.clone(), dependencies.clone())
}

#[test]
fn a_new_registry_is_empty() {
    let registry = GroupRegistry::new();
    assert_eq!(registry.len(), 0);
    assert!(registry.group_at(0).is_none());
    assert!(!registry.contains(&"required".to_string()));
}

#[test]
fn insert_appends_a_new_group_last() {
    let mut registry = GroupRegistry::new();
    registry.insert("required".to_string(), vec![Dependency::new("A", "")]);
    assert_eq!(registry.len(), 1);
    registry.insert("dev".to_string(), vec![Dependency::new("B", ">=1")]);
    assert_eq!(registry.len(), 2);

    assert_eq!(entry(&registry, 0), ("required".to_string(), vec![Dependency::new("A", "")]));
    assert_eq!(entry(&registry, 1), ("dev".to_string(), vec![Dependency::new("B", ">=1")]));
    assert!(registry.group_at(2).is_none());
    assert!(registry.contains(&"dev".to_string()));
    assert!(!registry.contains(&"docs".to_string()));
}

#[test]
fn insert_under_a_registered_name_replaces_the_list_in_place() {
    let mut registry = GroupRegistry::new();
    registry.insert("required".to_string(), vec![Dependency::new("A", "")]);
    registry.insert("dev".to_string(), vec![Dependency::new("B", "")]);
    registry.insert("required".to_string(), vec![Dependency::new("C", "")]);

    assert_eq!(registry.len(), 2);
    assert_eq!(entry(&registry, 0), ("required".to_string(), vec![Dependency::new("C", "")]));
    assert_eq!(entry(&registry, 1), ("dev".to_string(), vec![Dependency::new("B", "")]));
}

#[test]
fn build_registers_the_required_group_first() {
    let manifest = Manifest {
        required: Some(vec![Dependency::new("A", "")]),
        optional: Some(vec![
            Group { name: "dev".to_string(), dependencies: vec![Dependency::new("B", "")] },
            Group { name: "docs".to_string(), dependencies: vec![] },
        ]),
    };
    let registry = GroupRegistry::build(&manifest).unwrap();
    assert_eq!(registry.len(), 3);
    assert_eq!(entry(&registry, 0), (REQUIRED_GROUP.to_string(), vec![Dependency::new("A", "")]));
    assert_eq!(entry(&registry, 1), ("dev".to_string(), vec![Dependency::new("B", "")]));
    assert_eq!(entry(&registry, 2), ("docs".to_string(), vec![]));
}

#[test]
fn build_creates_an_empty_required_group_where_no_list_is_declared() {
    let manifest = Manifest {
        required: None,
        optional: Some(vec![Group { name: "dev".to_string(), dependencies: vec![] }]),
    };
    let registry = GroupRegistry::build(&manifest).unwrap();
    assert_eq!(registry.len(), 2);
    assert_eq!(entry(&registry, 0), ("required".to_string(), vec![]));

    let manifest = Manifest { required: Some(vec![]), optional: None };
    let registry = GroupRegistry::build(&manifest).unwrap();
    assert_eq!(registry.len(), 1);
    assert_eq!(entry(&registry, 0), ("required".to_string(), vec![]));
}

#[test]
fn build_fails_where_the_manifest_exposes_nothing() {
    let manifest = Manifest { required: None, optional: None };
    assert_eq!(GroupRegistry::build(&manifest).unwrap_err(), Error::ProjectDependenciesNotFound);
}
