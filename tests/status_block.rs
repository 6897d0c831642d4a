use decision_record::status_block::{dialect_of_name, inject_text_in_status_block_of_a_record, Dialect};

fn edit(name: &str, content: &str, inject: &str, start: bool, replace: bool, prunes: &[&str]) -> String {
    let prunes: Vec<String> = prunes.iter().map(|s| s.to_string()).collect();
    inject_text_in_status_block_of_a_record(name, content, "Status", inject, start, replace, &prunes)
}

const DOC: &str = "# 2. Foo\n\nDate: 2024-01-01\n\n## Status\n\nApproved\n\n## Context\n\nSome context.\n";

#[test]
fn append_goes_before_next_heading() {
    let out = edit("0002-foo.md", DOC, "Supersedes [0001](0001-foo.md)", false, false, &[]);
    assert_eq!(
        out,
        "# 2. Foo\n\nDate: 2024-01-01\n\n## Status\n\nApproved\n\nSupersedes [0001](0001-foo.md)\n\n## Context\n\nSome context.\n"
    );
    assert!(!out.contains("\n\n\n"));
}

#[test]
fn append_to_minimal_status_block() {
    let out = edit("0002-x.md", "## Status\n\nApproved\n\n## Context", "Supersedes [0001](0001-foo.md)", false, false, &[]);
    assert_eq!(out, "## Status\n\nApproved\n\nSupersedes [0001](0001-foo.md)\n\n## Context\n");
}

#[test]
fn start_of_block_goes_after_heading() {
    let out = edit("0002-foo.md", DOC, "New line", true, false, &[]);
    assert_eq!(
        out,
        "# 2. Foo\n\nDate: 2024-01-01\n\n## Status\n\nNew line\n\nApproved\n\n## Context\n\nSome context.\n"
    );
}

#[test]
fn replace_block_drops_old_content() {
    let out = edit("0002-foo.md", DOC, "Rejected", false, true, &[]);
    assert_eq!(
        out,
        "# 2. Foo\n\nDate: 2024-01-01\n\n## Status\n\nRejected\n\n## Context\n\nSome context.\n"
    );
}

#[test]
fn prune_removes_status_word() {
    let out = edit("0002-foo.md", DOC, "Superseded by [0003](0003-bar.md)", false, false, &["Approved", "Proposed"]);
    assert!(!out.contains("Approved"));
    assert_eq!(
        out,
        "# 2. Foo\n\nDate: 2024-01-01\n\n## Status\n\nSuperseded by [0003](0003-bar.md)\n\n## Context\n\nSome context.\n"
    );
}

#[test]
fn prune_matches_after_leading_white_space_only() {
    let doc = "## Status\n\n  Proposed later\nNot Approved\n\n## Next\n";
    let out = edit("a.md", doc, "X", false, false, &["Approved", "Proposed"]);
    assert_eq!(out, "## Status\n\nNot Approved\n\nX\n\n## Next\n");
}

#[test]
fn blank_line_runs_collapse() {
    let out = edit("a.md", "\n\nfirst\n\n\n\nsecond\n", "X", false, false, &[]);
    assert_eq!(out, "first\n\nsecond\n");
}

#[test]
fn missing_heading_leaves_document() {
    let doc = "# 1. T\n\n## Context\n\ntext\n";
    assert_eq!(edit("a.md", doc, "X", false, false, &[]), doc);
}

#[test]
fn heading_must_match_exactly() {
    let doc = "## Statuses\n\nApproved\n\n## Context\n";
    assert_eq!(edit("a.md", doc, "X", false, false, &[]), doc);
    let doc2 = "##Status\n\nApproved\n\n## Context\n";
    assert_eq!(edit("a.md", doc2, "X", false, false, &[]), doc2);
}

#[test]
fn heading_may_have_trailing_white_space() {
    let doc = "### Status  \nApproved\n# Next\n";
    assert_eq!(edit("a.md", doc, "X", false, false, &[]), "### Status  \nApproved\nX\n\n# Next\n");
}

#[test]
fn unclosed_block_gets_no_append() {
    let doc = "## Status\n\nApproved\n";
    assert_eq!(edit("a.md", doc, "X", false, false, &[]), doc);
}

#[test]
fn same_append_twice_adds_two_lines() {
    let once = edit("0002-foo.md", DOC, "Linked to [A](a.md)", false, false, &[]);
    let twice = edit("0002-foo.md", &once, "Linked to [A](a.md)", false, false, &[]);
    assert_eq!(twice.matches("Linked to [A](a.md)").count(), 2);
    assert_eq!(
        twice,
        "# 2. Foo\n\nDate: 2024-01-01\n\n## Status\n\nApproved\n\nLinked to [A](a.md)\n\nLinked to [A](a.md)\n\n## Context\n\nSome context.\n"
    );
}

const RST: &str = "#################\n1. Foo\n#################\n\nDate: 2024-01-01\n\n******\nStatus\n******\n\nApproved\n\n*******\nContext\n*******\n\nText.\n";

#[test]
fn rst_append_goes_before_next_delimiter() {
    let out = edit("0001-foo.rst", RST, "Amends :doc:`2. Bar <0002-bar.rst>`", false, false, &[]);
    assert_eq!(
        out,
        "#################\n1. Foo\n#################\n\nDate: 2024-01-01\n\n******\nStatus\n******\n\nApproved\n\nAmends :doc:`2. Bar <0002-bar.rst>`\n\n*******\nContext\n*******\n\nText.\n"
    );
}

#[test]
fn rst_start_of_block() {
    let out = edit("0001-foo.rst", RST, "First", true, false, &[]);
    assert!(out.contains("******\nStatus\n******\n\nFirst\n\nApproved\n"));
}

#[test]
fn unknown_suffix_passes_lines_through() {
    let doc = "## Status\n\n\n\nApproved\n\n## Context\n";
    assert_eq!(edit("notes.txt", doc, "X", false, false, &["Approved"]), "## Status\n\n## Context\n");
}

#[test]
fn carriage_returns_are_dropped_with_line_feeds() {
    let out = edit("a.md", "## Status\r\n\r\nApproved\r\n\r\n## Next\r\n", "X", false, false, &[]);
    assert_eq!(out, "## Status\n\nApproved\n\nX\n\n## Next\n");
}

#[test]
fn dialect_follows_suffix() {
    assert_eq!(dialect_of_name("0001-a.md"), Dialect::Markdown);
    assert_eq!(dialect_of_name("0001-a.rst"), Dialect::Rst);
    assert_eq!(dialect_of_name("0001-a.mdx"), Dialect::Other);
}
