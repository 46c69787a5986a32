use git_extra::remote::{parse_listing_line, parse_remote_listing, resolve_remote, Direction};

#[test]
fn listing_line_parses_name_url_direction() {
    let rec = parse_listing_line("origin\tgit@example.com:alice/proj.git (fetch)").unwrap();
    assert_eq!(rec.name, "origin");
    assert_eq!(rec.url, "git@example.com:alice/proj.git");
    assert_eq!(rec.direction, Direction::Fetch);

    let rec = parse_listing_line("upstream  https://example.com/a/b.git (push)").unwrap();
    assert_eq!(rec.name, "upstream");
    assert_eq!(rec.url, "https://example.com/a/b.git");
    assert_eq!(rec.direction, Direction::Push);
}

#[test]
fn malformed_lines_are_skipped() {
    assert!(parse_listing_line("").is_none());
    assert!(parse_listing_line("origin").is_none());
    assert!(parse_listing_line("origin git@example.com:a/b.git").is_none());
    assert!(parse_listing_line("origin git@example.com:a/b.git (pull)").is_none());
    assert!(parse_listing_line("git@example.com:a/b.git (fetch)").is_none());

    let records = parse_remote_listing(
        "\norigin\tgit@example.com:alice/proj.git (fetch)\nsome unexpected future format\n",
    );
    assert_eq!(records.len(), 1);
    assert_eq!(records[0].name, "origin");
}

#[test]
fn listing_keeps_order_and_directions() {
    let listing = "origin\tgit@example.com:alice/proj.git (fetch)\n\
                   origin\tgit@example.com:alice/proj.git (push)\n\
                   upstream\thttps://example.com/up/stream.git (fetch)\n";
    let records = parse_remote_listing(listing);
    assert_eq!(records.len(), 3);
    assert_eq!(records[0].direction, Direction::Fetch);
    assert_eq!(records[1].direction, Direction::Push);
    assert_eq!(records[2].name, "upstream");
}

#[test]
fn browse_resolves_first_normalizing_fetch_record() {
    let listing = "origin  git@example.com:alice/proj.git (fetch)";
    let p = resolve_remote(listing, "origin").unwrap();
    assert_eq!(p.browse_url(), "https://example.com/alice/proj");
}

#[test]
fn first_normalizing_record_wins() {
    let listing = "origin\tssh://legacy-form/not/matched (fetch)\n\
                   origin\tgit@example.com:alice/proj.git (fetch)\n\
                   origin\thttps://example.com/other/repo.git (fetch)\n";
    let p = resolve_remote(listing, "origin").unwrap();
    assert_eq!(p.browse_url(), "https://example.com/alice/proj");
}

#[test]
fn push_records_are_never_selected() {
    let listing = "origin\tgit@example.com:alice/proj.git (push)\n";
    assert!(resolve_remote(listing, "origin").is_none());
}

#[test]
fn other_names_are_not_selected() {
    let listing = "upstream\tgit@example.com:alice/proj.git (fetch)\n";
    assert!(resolve_remote(listing, "origin").is_none());
    assert!(resolve_remote(listing, "upstream").is_some());
}

#[test]
fn url_field_spans_to_the_separator_before_the_marker() {
    // With several blanks before the marker, the URL field keeps all but the
    // last one, which separates it from the direction marker.
    let rec = parse_listing_line("origin url   (fetch)").unwrap();
    assert_eq!(rec.url, "url  ");
}

#[test]
fn remote_names_allow_digits_and_hyphens() {
    let rec = parse_listing_line("fork-2\tgit@example.com:a/b.git (fetch)").unwrap();
    assert_eq!(rec.name, "fork-2");
    assert!(parse_listing_line("bad_name\tgit@example.com:a/b.git (fetch)").is_none());
}
