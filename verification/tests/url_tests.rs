use git_extra::url::ParsedRemoteUrl;

#[test]
fn ssh_form_normalizes() {
    let p = ParsedRemoteUrl::parse("git@example.com:alice/proj.git").unwrap();
    assert_eq!(p.domain, "example.com");
    assert_eq!(p.user, "alice");
    assert_eq!(p.project, "proj");
    assert_eq!(p.browse_url(), "https://example.com/alice/proj");
}

#[test]
fn ssh_form_permissive_segments() {
    let p = ParsedRemoteUrl::parse("git@my-host.example.org:user_name/pro-ject_1.git").unwrap();
    assert_eq!(p.browse_url(), "https://my-host.example.org/user_name/pro-ject_1");
}

#[test]
fn https_form_normalizes() {
    let p = ParsedRemoteUrl::parse("https://example.com/bob/demo.git").unwrap();
    assert_eq!(p.domain, "example.com");
    assert_eq!(p.user, "bob");
    assert_eq!(p.project, "demo");
    assert_eq!(p.browse_url(), "https://example.com/bob/demo");
}

#[test]
fn https_credential_is_stripped() {
    let p = ParsedRemoteUrl::parse("https://token_123@example.com/bob/demo.git").unwrap();
    assert_eq!(p.domain, "example.com");
    assert_eq!(p.user, "bob");
    assert_eq!(p.project, "demo");
    assert_eq!(p.browse_url(), "https://example.com/bob/demo");
}

#[test]
fn https_round_trip_is_stable() {
    let p = ParsedRemoteUrl::parse("https://cred@example.com/bob/demo.git").unwrap();
    let rebuilt = format!("{}.git", p.browse_url());
    let q = ParsedRemoteUrl::parse(&rebuilt).unwrap();
    assert_eq!(q.domain, p.domain);
    assert_eq!(q.user, p.user);
    assert_eq!(q.project, p.project);
    assert_eq!(q.browse_url(), p.browse_url());
}

#[test]
fn unrecognized_forms_are_rejected() {
    assert!(ParsedRemoteUrl::parse("not-a-url-or-name").is_none());
    assert!(ParsedRemoteUrl::parse("").is_none());
    assert!(ParsedRemoteUrl::parse("git@example.com:alice/proj").is_none());
    assert!(ParsedRemoteUrl::parse("git@Example.com:alice/proj.git").is_none());
    assert!(ParsedRemoteUrl::parse("git@example.com:alice.git").is_none());
    assert!(ParsedRemoteUrl::parse("https://example.com/demo.git").is_none());
    assert!(ParsedRemoteUrl::parse("https://example.com/bob/demo.git/").is_none());
    assert!(ParsedRemoteUrl::parse("http://example.com/bob/demo.git").is_none());
    assert!(ParsedRemoteUrl::parse("https://a@b@example.com/bob/demo.git").is_none());
}
