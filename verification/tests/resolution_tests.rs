use pyproject_toml::resolution::{resolve, resolve_optional_dependency, Item};
use pyproject_toml::{
    DependencyGroupSpecifier, DependencyGroups, OptionalDependencies, Project, PyProjectToml,
    Requirement, ResolvedDependencies,
};

fn req(name: &str) -> Requirement {
    Requirement::new(name.to_string(), Vec::new(), String::new())
}

fn req_constrained(name: &str, constraint: &str) -> Requirement {
    Requirement::new(name.to_string(), Vec::new(), constraint.to_string())
}

fn self_ref(project: &str, extras: &[&str]) -> Requirement {
    Requirement::new(
        project.to_string(),
        extras.iter().map(|e| e.to_string()).collect(),
        String::new(),
    )
}

fn opt_table(groups: Vec<(&str, Vec<Requirement>)>) -> OptionalDependencies {
    OptionalDependencies(
        groups
            .into_iter()
            .map(|(k, v)| (k.to_string(), v))
            .collect(),
    )
}

fn grp_table(groups: Vec<(&str, Vec<DependencyGroupSpecifier>)>) -> DependencyGroups {
    DependencyGroups(
        groups
            .into_iter()
            .map(|(k, v)| (k.to_string(), v))
            .collect(),
    )
}

fn group_ref(group: &str) -> DependencyGroupSpecifier {
    DependencyGroupSpecifier::Table {
        include_group: group.to_string(),
    }
}

fn literal(r: Requirement) -> DependencyGroupSpecifier {
    DependencyGroupSpecifier::Requirement(r)
}

fn spam_manifest(
    optional_dependencies: Option<OptionalDependencies>,
    dependency_groups: Option<DependencyGroups>,
) -> PyProjectToml {
    let mut project = Project::new("spam".to_string());
    project.optional_dependencies = optional_dependencies;
    PyProjectToml {
        build_system: None,
        project: Some(project),
        dependency_groups,
    }
}

#[test]
fn parse_pyproject_toml_optional_dependencies_resolve() {
    let optional = opt_table(vec![
        ("alpha", vec![req("beta"), req("gamma"), req("delta")]),
        (
            "epsilon",
            vec![
                req_constrained("eta", "<2.0"),
                req_constrained("theta", "==2024.09.01"),
            ],
        ),
        ("iota", vec![self_ref("spam", &["alpha"])]),
    ]);
    let pyproject_toml = spam_manifest(Some(optional), None);
    let resolved_dependencies = pyproject_toml.resolve().unwrap();

    assert_eq!(
        resolved_dependencies.optional_dependencies.get("iota").unwrap(),
        &vec![req("beta"), req("gamma"), req("delta")]
    );
}

#[test]
fn parse_pyproject_toml_optional_dependencies_cycle() {
    let optional = opt_table(vec![
        ("alpha", vec![self_ref("spam", &["iota"])]),
        ("iota", vec![self_ref("spam", &["alpha"])]),
    ]);
    let pyproject_toml = spam_manifest(Some(optional), None);
    assert_eq!(
        pyproject_toml.resolve().unwrap_err().message(),
        "Cycles are not supported: extra:alpha -> extra:iota -> extra:alpha"
    )
}

#[test]
fn parse_pyproject_toml_optional_dependencies_missing_include() {
    let optional = opt_table(vec![("iota", vec![self_ref("spam", &["alpha"])])]);
    let pyproject_toml = spam_manifest(Some(optional), None);
    assert_eq!(
        pyproject_toml.resolve().unwrap_err().message(),
        "Failed to find optional dependency `alpha` included by extra:iota"
    )
}

#[test]
fn parse_pyproject_toml_optional_dependencies_missing_top_level() {
    let optional = opt_table(vec![("alpha", vec![req("beta")])]);
    let mut resolved = ResolvedDependencies::default();
    let err = resolve_optional_dependency(
        "foo",
        &optional,
        &mut resolved,
        &mut vec![Item::Extra("bar".to_string())],
        Some("spam"),
    )
    .unwrap_err();
    assert_eq!(
        err.message(),
        "Failed to find optional dependency `foo` included by extra:bar"
    );
}

#[test]
fn parse_pyproject_toml_dependency_groups_resolve() {
    let groups = grp_table(vec![
        (
            "alpha",
            vec![literal(req("beta")), literal(req("gamma")), literal(req("delta"))],
        ),
        (
            "epsilon",
            vec![
                literal(req_constrained("eta", "<2.0")),
                literal(req_constrained("theta", "==2024.09.01")),
            ],
        ),
        ("iota", vec![group_ref("alpha")]),
    ]);
    let pyproject_toml = PyProjectToml {
        build_system: None,
        project: None,
        dependency_groups: Some(groups),
    };
    let resolved_dependencies = pyproject_toml.resolve().unwrap();

    assert_eq!(
        resolved_dependencies.dependency_groups.get("iota").unwrap(),
        &vec![req("beta"), req("gamma"), req("delta")]
    );
}

#[test]
fn parse_pyproject_toml_dependency_groups_cycle() {
    let groups = grp_table(vec![
        ("alpha", vec![group_ref("iota")]),
        ("iota", vec![group_ref("alpha")]),
    ]);
    let pyproject_toml = PyProjectToml {
        build_system: None,
        project: None,
        dependency_groups: Some(groups),
    };
    assert_eq!(
        pyproject_toml.resolve().unwrap_err().message(),
        "Cycles are not supported: group:alpha -> group:iota -> group:alpha"
    )
}

#[test]
fn parse_pyproject_toml_dependency_groups_missing_include() {
    let groups = grp_table(vec![("iota", vec![group_ref("alpha")])]);
    let pyproject_toml = PyProjectToml {
        build_system: None,
        project: None,
        dependency_groups: Some(groups),
    };
    assert_eq!(
        pyproject_toml.resolve().unwrap_err().message(),
        "Failed to find dependency group `alpha` included by group:iota"
    )
}

#[test]
fn parse_pyproject_toml_dependency_groups_with_optional_dependencies() {
    let optional = opt_table(vec![("test", vec![req("pytest")])]);
    let groups = grp_table(vec![("dev", vec![literal(self_ref("spam", &["test"]))])]);
    let pyproject_toml = spam_manifest(Some(optional), Some(groups));
    let resolved_dependencies = pyproject_toml.resolve().unwrap();
    assert_eq!(
        resolved_dependencies.dependency_groups.get("dev").unwrap(),
        &vec![req("pytest")]
    );
}

#[test]
fn name_collision() {
    let optional = opt_table(vec![("dev", vec![req("pytest")])]);
    let groups = grp_table(vec![("dev", vec![literal(req("ruff"))])]);
    let pyproject_toml = spam_manifest(Some(optional), Some(groups));
    let resolved_dependencies = pyproject_toml.resolve().unwrap();
    assert_eq!(
        resolved_dependencies.optional_dependencies.get("dev").unwrap(),
        &vec![req("pytest")]
    );
    assert_eq!(
        resolved_dependencies.dependency_groups.get("dev").unwrap(),
        &vec![req("ruff")]
    );
}

#[test]
fn optional_dependencies_are_not_dependency_groups() {
    let optional = opt_table(vec![("test", vec![req("pytest")])]);
    let groups = grp_table(vec![("dev", vec![literal(self_ref("spam", &["test"]))])]);
    let pyproject_toml = spam_manifest(Some(optional), Some(groups));
    let resolved_dependencies = pyproject_toml.resolve().unwrap();
    assert!(resolved_dependencies
        .optional_dependencies
        .contains_key("test"));
    assert!(!resolved_dependencies.dependency_groups.contains_key("test"));
    assert!(resolved_dependencies.dependency_groups.contains_key("dev"));
}

#[test]
fn mixed_resolution() {
    let optional = opt_table(vec![
        ("test", vec![req("pytest")]),
        ("numpy", vec![req("numpy")]),
    ]);
    let groups = grp_table(vec![
        ("dev", vec![literal(self_ref("spam", &["test"]))]),
        ("test", vec![literal(self_ref("spam", &["numpy"]))]),
    ]);
    let pyproject_toml = spam_manifest(Some(optional), Some(groups));
    let resolved_dependencies = pyproject_toml.resolve().unwrap();
    assert_eq!(
        resolved_dependencies.dependency_groups.get("dev").unwrap(),
        &vec![req("pytest")]
    );
    assert_eq!(
        resolved_dependencies.dependency_groups.get("test").unwrap(),
        &vec![req("numpy")]
    );
}

#[test]
fn optional_dependencies_with_underscores() {
    let optional = opt_table(vec![
        (
            "all",
            vec![self_ref("foo", &["group-one"]), self_ref("foo", &["group_two"])],
        ),
        ("group_one", vec![req_constrained("anyio", ">=4.9.0")]),
        ("group-two", vec![req_constrained("trio", ">=0.31.0")]),
    ]);
    let mut project = Project::new("foo".to_string());
    project.optional_dependencies = Some(optional);
    let pyproject_toml = PyProjectToml {
        build_system: None,
        project: Some(project),
        dependency_groups: None,
    };
    let resolved_dependencies = pyproject_toml.resolve().unwrap();

    assert_eq!(
        resolved_dependencies.optional_dependencies.get("all").unwrap(),
        &vec![
            req_constrained("anyio", ">=4.9.0"),
            req_constrained("trio", ">=0.31.0"),
        ]
    );
}

#[test]
fn resolving_twice_is_identical() {
    let optional = opt_table(vec![
        ("alpha", vec![req("beta"), req("gamma")]),
        ("iota", vec![self_ref("spam", &["alpha"])]),
    ]);
    let groups = grp_table(vec![("dev", vec![group_ref("extra-free")]), ("extra-free", vec![literal(req("ruff"))])]);
    let first = resolve(Some("spam"), Some(&opt_table(vec![
        ("alpha", vec![req("beta"), req("gamma")]),
        ("iota", vec![self_ref("spam", &["alpha"])]),
    ])), Some(&groups))
    .unwrap();
    let second = resolve(Some("spam"), Some(&optional), Some(&groups)).unwrap();
    for key in ["alpha", "iota"] {
        assert_eq!(
            first.optional_dependencies.get(key).unwrap(),
            second.optional_dependencies.get(key).unwrap()
        );
    }
    for key in ["dev", "extra-free"] {
        assert_eq!(
            first.dependency_groups.get(key).unwrap(),
            second.dependency_groups.get(key).unwrap()
        );
    }
}

#[test]
fn diamond_reference_shares_one_resolution() {
    let groups = grp_table(vec![
        ("top", vec![group_ref("left"), group_ref("right")]),
        ("left", vec![group_ref("base")]),
        ("right", vec![group_ref("base")]),
        ("base", vec![literal(req("httpx"))]),
    ]);
    let resolved = resolve(None, None, Some(&groups)).unwrap();
    assert_eq!(
        resolved.dependency_groups.get("top").unwrap(),
        &vec![req("httpx"), req("httpx")]
    );
    assert_eq!(
        resolved.dependency_groups.get("left").unwrap(),
        resolved.dependency_groups.get("right").unwrap()
    );
}

#[test]
fn empty_tables_resolve_to_empty_maps() {
    let resolved = resolve(None, None, None).unwrap();
    assert_eq!(resolved.optional_dependencies.len(), 0);
    assert_eq!(resolved.dependency_groups.len(), 0);
}

#[test]
fn order_and_multiplicity_are_preserved() {
    let optional = opt_table(vec![(
        "abc",
        vec![req("a"), req("b"), req("c"), req("b")],
    )]);
    let resolved = resolve(None, Some(&optional), None).unwrap();
    assert_eq!(
        resolved.optional_dependencies.get("abc").unwrap(),
        &vec![req("a"), req("b"), req("c"), req("b")]
    );
}
