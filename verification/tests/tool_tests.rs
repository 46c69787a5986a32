use git_extra::catalog::{Catalog, CatalogEntry};
use git_extra::tool::catalog_listing_lines;
use git_extra::{GitExtraLog, GitExtraTool};

struct RecordingLog {
    outputs: std::cell::RefCell<Vec<String>>,
    warnings: std::cell::RefCell<Vec<String>>,
    errors: std::cell::RefCell<Vec<String>>,
}

impl RecordingLog {
    fn new() -> RecordingLog {
        RecordingLog {
            outputs: std::cell::RefCell::new(Vec::new()),
            warnings: std::cell::RefCell::new(Vec::new()),
            errors: std::cell::RefCell::new(Vec::new()),
        }
    }
}

impl GitExtraLog for RecordingLog {
    fn output(&self, msg: &str) {
        self.outputs.borrow_mut().push(msg.to_owned());
    }
    fn warning(&self, msg: &str) {
        self.warnings.borrow_mut().push(msg.to_owned());
    }
    fn error(&self, msg: &str) {
        self.errors.borrow_mut().push(msg.to_owned());
    }
}

#[test]
fn browse_announces_the_resolved_url() {
    let log = RecordingLog::new();
    let tool = GitExtraTool::new(&log);
    let listing = "origin  git@example.com:alice/proj.git (fetch)";
    let url = tool.browse_target(listing, &None).unwrap();
    assert_eq!(url, "https://example.com/alice/proj");
    assert_eq!(
        log.outputs.borrow().as_slice(),
        &["Opening URL 'https://example.com/alice/proj'".to_owned()]
    );
}

#[test]
fn browse_honors_the_name_override() {
    let log = RecordingLog::new();
    let tool = GitExtraTool::new(&log);
    let listing = "origin  git@example.com:alice/proj.git (fetch)\n\
                   mirror  https://example.com/mirror/proj.git (fetch)\n";
    let url = tool
        .browse_target(listing, &Some("mirror".to_owned()))
        .unwrap();
    assert_eq!(url, "https://example.com/mirror/proj");
    assert!(tool.browse_target(listing, &Some("absent".to_owned())).is_none());
}

#[test]
fn missing_catalog_degrades_to_empty_with_warning() {
    let log = RecordingLog::new();
    let tool = GitExtraTool::new(&log);
    let catalog = tool.catalog_or_empty(None, "/home/user/.config/git_extra/repos.toml");
    assert_eq!(catalog.len(), 0);
    assert_eq!(
        log.warnings.borrow().as_slice(),
        &["'/home/user/.config/git_extra/repos.toml' not found".to_owned()]
    );
    assert!(log.errors.borrow().is_empty());
}

#[test]
fn present_catalog_is_kept_without_warning() {
    let log = RecordingLog::new();
    let tool = GitExtraTool::new(&log);
    let mut loaded = Catalog::empty();
    assert!(loaded.add(CatalogEntry {
        name: "demo".to_owned(),
        origin: "https://example.com/bob/demo.git".to_owned(),
        customizer: None,
        description: None,
    }));
    let catalog = tool.catalog_or_empty(Some(loaded), "/home/user/.config/git_extra/repos.toml");
    assert_eq!(catalog.len(), 1);
    assert!(log.warnings.borrow().is_empty());
}

#[test]
fn listing_lines_align_to_longest_name() {
    let mut catalog = Catalog::empty();
    assert!(catalog.add(CatalogEntry {
        name: "demo".to_owned(),
        origin: "https://example.com/bob/demo.git".to_owned(),
        customizer: None,
        description: Some("A demo project".to_owned()),
    }));
    assert!(catalog.add(CatalogEntry {
        name: "al".to_owned(),
        origin: "git@example.com:a/l.git".to_owned(),
        customizer: None,
        description: None,
    }));
    let lines = catalog_listing_lines(&catalog);
    assert_eq!(lines.len(), 2);
    assert_eq!(
        lines[0],
        "demo    https://example.com/bob/demo.git\n        A demo project"
    );
    assert_eq!(lines[1], "al      git@example.com:a/l.git\n        ");
}

#[test]
fn empty_catalog_lists_nothing() {
    let catalog = Catalog::empty();
    assert!(catalog_listing_lines(&catalog).is_empty());
}
