use git_extra::catalog::{Catalog, CatalogEntry};
use git_extra::source::{resolve_source, ProvisionError};

fn entry(name: &str, origin: &str, customizer: Option<&str>) -> CatalogEntry {
    CatalogEntry {
        name: name.to_owned(),
        origin: origin.to_owned(),
        customizer: customizer.map(|s| s.to_owned()),
        description: None,
    }
}

#[test]
fn direct_ssh_source_is_used_verbatim() {
    let catalog = Catalog::empty();
    let r = resolve_source("git@example.com:alice/proj.git", &catalog).unwrap();
    assert_eq!(r.clone_url, "git@example.com:alice/proj.git");
    assert_eq!(r.customizer_candidate, "customize.ts");
}

#[test]
fn direct_url_beats_identical_catalog_key() {
    let mut catalog = Catalog::empty();
    assert!(catalog.add(entry(
        "git@example.com:alice/proj.git",
        "https://example.com/shadow/other.git",
        Some("shadow.sh"),
    )));
    let r = resolve_source("git@example.com:alice/proj.git", &catalog).unwrap();
    assert_eq!(r.clone_url, "git@example.com:alice/proj.git");
    assert_eq!(r.customizer_candidate, "customize.ts");
}

#[test]
fn file_prefix_is_stripped() {
    let catalog = Catalog::empty();
    let r = resolve_source("file:///srv/repos/demo", &catalog).unwrap();
    assert_eq!(r.clone_url, "/srv/repos/demo");
    assert_eq!(r.customizer_candidate, "customize.ts");
}

#[test]
fn catalog_name_resolves_to_origin() {
    let mut catalog = Catalog::empty();
    assert!(catalog.add(entry("demo", "https://example.com/bob/demo.git", Some("setup.sh"))));
    assert!(catalog.add(entry("bare", "git@example.com:bob/bare.git", None)));

    let r = resolve_source("demo", &catalog).unwrap();
    assert_eq!(r.clone_url, "https://example.com/bob/demo.git");
    assert_eq!(r.customizer_candidate, "setup.sh");

    let r = resolve_source("bare", &catalog).unwrap();
    assert_eq!(r.clone_url, "git@example.com:bob/bare.git");
    assert_eq!(r.customizer_candidate, "customize.ts");
}

#[test]
fn unknown_source_is_unrecognized() {
    let catalog = Catalog::empty();
    let err = resolve_source("not-a-url-or-name", &catalog).unwrap_err();
    match &err {
        ProvisionError::UnrecognizedSource { source } => {
            assert_eq!(source, "not-a-url-or-name");
        }
        _ => panic!("expected an unrecognized-source error"),
    }
    assert_eq!(
        err.message(),
        "Repository name 'not-a-url-or-name' must start with https://, git@ or file://"
    );
}

#[test]
fn duplicate_catalog_names_are_rejected() {
    let mut catalog = Catalog::empty();
    assert!(catalog.add(entry("demo", "https://example.com/bob/demo.git", None)));
    assert!(!catalog.add(entry("demo", "https://example.com/eve/other.git", None)));
    assert_eq!(catalog.len(), 1);
    let found = catalog.get("demo").unwrap();
    assert_eq!(found.origin, "https://example.com/bob/demo.git");
    assert!(catalog.get("missing").is_none());
}

#[test]
fn malformed_config_message_is_verbatim() {
    let err = ProvisionError::ConfigMalformed {
        detail: "expected a table at line 3".to_owned(),
    };
    assert_eq!(err.message(), "expected a table at line 3");
}
