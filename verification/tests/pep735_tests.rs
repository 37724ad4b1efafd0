use pyproject_toml::{
    DependencyGroupSpecifier, DependencyGroups, OptionalDependencies, Requirement,
};

fn req(name: &str) -> Requirement {
    Requirement::new(name.to_string(), Vec::new(), String::new())
}

fn req_constrained(name: &str, constraint: &str) -> Requirement {
    Requirement::new(name.to_string(), Vec::new(), constraint.to_string())
}

fn self_ref(project: &str, extras: &[&str]) -> Requirement {
    Requirement::new(
        project.to_string(),
        extras.iter().map(|e| e.to_string()).collect(),
        String::new(),
    )
}

fn opt_table(groups: Vec<(&str, Vec<Requirement>)>) -> OptionalDependencies {
    OptionalDependencies(
        groups
            .into_iter()
            .map(|(k, v)| (k.to_string(), v))
            .collect(),
    )
}

fn grp_table(groups: Vec<(&str, Vec<DependencyGroupSpecifier>)>) -> DependencyGroups {
    DependencyGroups(
        groups
            .into_iter()
            .map(|(k, v)| (k.to_string(), v))
            .collect(),
    )
}

fn group_ref(group: &str) -> DependencyGroupSpecifier {
    DependencyGroupSpecifier::Table {
        include_group: group.to_string(),
    }
}

fn literal(r: Requirement) -> DependencyGroupSpecifier {
    DependencyGroupSpecifier::Requirement(r)
}

#[test]
fn pep735_resolve_test_parse_pyproject_toml_dependency_groups_resolve() {
    let dependency_groups = grp_table(vec![
        (
            "alpha",
            vec![literal(req("beta")), literal(req("gamma")), literal(req("delta"))],
        ),
        (
            "epsilon",
            vec![
                literal(req_constrained("eta", "<2.0")),
                literal(req_constrained("theta", "==2024.09.01")),
            ],
        ),
        ("iota", vec![group_ref("alpha")]),
    ]);

    let resolved = dependency_groups
        .resolve(&OptionalDependencies::new(), None)
        .unwrap();
    assert_eq!(
        resolved.get("iota").unwrap(),
        &vec![req("beta"), req("gamma"), req("delta")]
    );
}

#[test]
fn pep735_resolve_test_parse_pyproject_toml_dependency_groups_cycle() {
    let dependency_groups = grp_table(vec![
        ("alpha", vec![group_ref("iota")]),
        ("iota", vec![group_ref("alpha")]),
    ]);
    assert_eq!(
        dependency_groups
            .resolve(&OptionalDependencies::new(), None)
            .unwrap_err()
            .message(),
        String::from("Detected a cycle in `dependency-groups`: `alpha` -> `iota` -> `alpha`")
    )
}

#[test]
fn pep735_resolve_test_parse_pyproject_toml_dependency_groups_missing_include() {
    let dependency_groups = grp_table(vec![("iota", vec![group_ref("alpha")])]);
    assert_eq!(
        dependency_groups
            .resolve(&OptionalDependencies::new(), None)
            .unwrap_err()
            .message(),
        String::from("Failed to find dependency group `alpha` included by `iota`")
    )
}

#[test]
fn test_parse_pyproject_toml_optional_dependencies_resolve() {
    let optional_dependencies = opt_table(vec![
        ("alpha", vec![req("beta"), req("gamma"), req("delta")]),
        (
            "epsilon",
            vec![
                req_constrained("eta", "<2.0"),
                req_constrained("theta", "==2024.09.01"),
            ],
        ),
        ("iota", vec![self_ref("spam", &["alpha"])]),
    ]);

    let resolved = optional_dependencies.resolve(Some("spam")).unwrap();
    assert_eq!(
        resolved.get("iota").unwrap(),
        &vec![req("beta"), req("gamma"), req("delta")]
    );
}

#[test]
fn test_parse_pyproject_toml_optional_dependencies_cycle() {
    let optional_dependencies = opt_table(vec![
        ("alpha", vec![self_ref("spam", &["iota"])]),
        ("iota", vec![self_ref("spam", &["alpha"])]),
    ]);
    assert_eq!(
        optional_dependencies
            .resolve(Some("spam"))
            .unwrap_err()
            .message(),
        String::from(
            "Detected a cycle in `project.optional-dependencies`: `alpha` -> `iota` -> `alpha`"
        )
    )
}

#[test]
fn test_parse_pyproject_toml_optional_dependencies_missing_include() {
    let optional_dependencies = opt_table(vec![("iota", vec![self_ref("spam", &["alpha"])])]);
    assert_eq!(
        optional_dependencies
            .resolve(Some("spam"))
            .unwrap_err()
            .message(),
        String::from("Failed to find optional dependency group `alpha` included by `iota`")
    )
}

#[test]
fn test_parse_pyproject_toml_both_resolve() {
    let optional_dependencies = opt_table(vec![
        ("alpha", vec![req("beta"), req("gamma"), req("delta")]),
        (
            "epsilon",
            vec![
                req_constrained("eta", "<2.0"),
                req_constrained("theta", "==2024.09.01"),
            ],
        ),
        ("iota", vec![self_ref("spam", &["alpha"])]),
    ]);
    let dependency_groups = grp_table(vec![
        ("mu", vec![literal(self_ref("spam", &["iota"]))]),
        ("nu", vec![group_ref("mu")]),
        ("xi", vec![literal(req("lambda"))]),
    ]);

    let resolved = dependency_groups
        .resolve(&optional_dependencies, Some("spam"))
        .unwrap();
    assert_eq!(
        resolved.get("nu").unwrap(),
        &vec![req("beta"), req("gamma"), req("delta")]
    );
}
