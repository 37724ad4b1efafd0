use pyproject_toml::resolution::{normalize_name, Item};
use pyproject_toml::{Contact, License, Project, ReadMe};

#[test]
fn test_contact_accessors() {
    let contact = Contact::NameEmail {
        name: "John Doe".to_string(),
        email: "john@example.com".to_string(),
    };

    assert_eq!(contact.name(), Some("John Doe"));
    assert_eq!(contact.email(), Some("john@example.com"));

    let contact = Contact::Name {
        name: "John Doe".to_string(),
    };

    assert_eq!(contact.name(), Some("John Doe"));
    assert_eq!(contact.email(), None);

    let contact = Contact::Email {
        email: "john@example.com".to_string(),
    };

    assert_eq!(contact.name(), None);
    assert_eq!(contact.email(), Some("john@example.com"));
}

#[test]
fn normalize_name_collapses_separator_runs() {
    assert_eq!(normalize_name("group_one"), "group-one");
    assert_eq!(normalize_name("group-one"), "group-one");
    assert_eq!(normalize_name("group.one"), "group-one");
    assert_eq!(normalize_name("Group__One"), "group-one");
    assert_eq!(normalize_name("a._-b"), "a-b");
    assert_eq!(normalize_name("plain"), "plain");
}

#[test]
fn item_labels_carry_their_table_tag() {
    assert_eq!(Item::Extra("docs".to_string()).label(), "extra:docs");
    assert_eq!(Item::Group("dev".to_string()).label(), "group:dev");
}

#[test]
fn project_new_leaves_everything_but_the_name_empty() {
    let project = Project::new("spam".to_string());
    assert_eq!(project.name, "spam");
    assert!(project.version.is_none());
    assert!(project.readme.is_none());
    assert!(project.license.is_none());
    assert!(project.optional_dependencies.is_none());
    assert!(project.dynamic.is_none());
}

#[test]
fn manifest_value_types_hold_their_fields() {
    let readme = ReadMe::Table {
        file: None,
        text: Some("ReadMe!".to_string()),
        content_type: Some("text/plain".to_string()),
    };
    match readme {
        ReadMe::Table { text, content_type, .. } => {
            assert_eq!(text.as_deref(), Some("ReadMe!"));
            assert_eq!(content_type.as_deref(), Some("text/plain"));
        }
        ReadMe::RelativePath(_) => panic!("expected a table"),
    }
    let license = License::Spdx("MIT OR BSD-3-Clause".to_string());
    match license {
        License::Spdx(expr) => assert_eq!(expr, "MIT OR BSD-3-Clause"),
        _ => panic!("expected an SPDX expression"),
    }
}
