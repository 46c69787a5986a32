use git_extra::catalog::{Catalog, CatalogEntry};
use git_extra::provision::{
    base_name_of, clone_failure, customizer_failure, join_path, plan_provision, provision_step,
    ProvisionEvent, ProvisionRequest, ProvisionState,
};
use git_extra::source::ProvisionError;

fn demo_catalog() -> Catalog {
    let mut catalog = Catalog::empty();
    assert!(catalog.add(CatalogEntry {
        name: "demo".to_owned(),
        origin: "https://example.com/bob/demo.git".to_owned(),
        customizer: Some("setup.sh".to_owned()),
        description: Some("A demo project".to_owned()),
    }));
    assert!(catalog.add(CatalogEntry {
        name: "plain".to_owned(),
        origin: "git@example.com:bob/plain.git".to_owned(),
        customizer: None,
        description: None,
    }));
    catalog
}

fn request(source: &str, dir: &str, customizer: Option<&str>) -> ProvisionRequest {
    ProvisionRequest {
        source_text: source.to_owned(),
        target_directory: dir.to_owned(),
        customizer_override: customizer.map(|s| s.to_owned()),
    }
}

#[test]
fn catalog_entry_plans_clone_and_customizer() {
    let plan = plan_provision(&request("demo", "out", None), &demo_catalog()).unwrap();
    assert_eq!(plan.clone_url, "https://example.com/bob/demo.git");
    assert_eq!(plan.directory, "out");
    assert_eq!(plan.customizer_file, "setup.sh");
    assert_eq!(plan.customizer_path, "out/setup.sh");
    assert_eq!(plan.directory_base, "out");
}

#[test]
fn override_beats_catalog_declaration() {
    let plan = plan_provision(&request("demo", "out", Some("mine.sh")), &demo_catalog()).unwrap();
    assert_eq!(plan.customizer_file, "mine.sh");
}

#[test]
fn override_beats_default() {
    let plan = plan_provision(&request("plain", "out", Some("mine.sh")), &demo_catalog()).unwrap();
    assert_eq!(plan.customizer_file, "mine.sh");
}

#[test]
fn catalog_declaration_beats_default() {
    let plan = plan_provision(&request("demo", "out", None), &demo_catalog()).unwrap();
    assert_eq!(plan.customizer_file, "setup.sh");
    let plan = plan_provision(&request("plain", "out", None), &demo_catalog()).unwrap();
    assert_eq!(plan.customizer_file, "customize.ts");
}

#[test]
fn direct_url_request_ignores_catalog() {
    let plan = plan_provision(
        &request("git@example.com:alice/proj.git", "proj", None),
        &demo_catalog(),
    )
    .unwrap();
    assert_eq!(plan.clone_url, "git@example.com:alice/proj.git");
    assert_eq!(plan.customizer_file, "customize.ts");
}

#[test]
fn unrecognized_request_fails_with_detail() {
    let err = plan_provision(&request("not-a-url-or-name", "out", None), &Catalog::empty())
        .unwrap_err();
    match err {
        ProvisionError::UnrecognizedSource { source } => assert_eq!(source, "not-a-url-or-name"),
        _ => panic!("expected an unrecognized-source error"),
    }
}

#[test]
fn pipeline_runs_customizer_when_present() {
    let s = ProvisionState::ResolvingSource;
    let s = provision_step(s, ProvisionEvent::SourceResolved);
    assert_eq!(s, ProvisionState::Cloning);
    let s = provision_step(s, ProvisionEvent::CloneSucceeded);
    assert_eq!(s, ProvisionState::CheckingCustomizer);
    let s = provision_step(s, ProvisionEvent::CustomizerPresent);
    assert_eq!(s, ProvisionState::RunningCustomizer);
    let s = provision_step(s, ProvisionEvent::CustomizerSucceeded);
    assert_eq!(s, ProvisionState::Done { customizer_ran: true });
}

#[test]
fn missing_customizer_is_not_a_failure() {
    let s = provision_step(ProvisionState::CheckingCustomizer, ProvisionEvent::CustomizerAbsent);
    assert_eq!(s, ProvisionState::Done { customizer_ran: false });
}

#[test]
fn clone_and_customizer_failures_are_fatal() {
    let s = provision_step(ProvisionState::Cloning, ProvisionEvent::CloneFailed);
    assert_eq!(s, ProvisionState::Failed);
    let s = provision_step(ProvisionState::RunningCustomizer, ProvisionEvent::CustomizerFailed);
    assert_eq!(s, ProvisionState::Failed);
    let s = provision_step(ProvisionState::ResolvingSource, ProvisionEvent::SourceRejected);
    assert_eq!(s, ProvisionState::Failed);
}

#[test]
fn failure_errors_name_their_context() {
    let plan = plan_provision(&request("demo", "out", None), &demo_catalog()).unwrap();
    let err = clone_failure(&plan, "exit status 128".to_owned());
    assert_eq!(
        err.message(),
        "Unable to run `git clone` for 'https://example.com/bob/demo.git': exit status 128"
    );
    let err = customizer_failure(&plan, "exit status 1".to_owned());
    assert_eq!(
        err.message(),
        "There was a problem running customizer file 'out/setup.sh': exit status 1"
    );
}

#[test]
fn path_helpers_handle_edges() {
    assert_eq!(join_path("out", "setup.sh"), "out/setup.sh");
    assert_eq!(join_path("out/", "setup.sh"), "out/setup.sh");
    assert_eq!(join_path("", "setup.sh"), "setup.sh");
    assert_eq!(base_name_of("out"), "out");
    assert_eq!(base_name_of("a/b/out"), "out");
    assert_eq!(base_name_of("a/b/out///"), "out");
    assert_eq!(base_name_of(""), "");
}
