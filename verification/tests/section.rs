use ocli::section::{append_to_section, find_section};


#[test]
fn matches_only_the_configured_heading_level() {
    let text = "## Progress\n\n- h2\n### Progress\n\n- h3\n";
    assert_eq!(
        find_section(text, 2, "Progress"),
        Some("## Progress\n\n- h2\n")
    );
    assert_eq!(
        find_section(text, 3, "Progress"),
        Some("### Progress\n\n- h3\n")
    );
}

#[test]
fn appends_after_the_last_entry() {
    let text = "## Progress\n\n- first\n## Notes\n";
    let out = append_to_section(text, 2, "Progress", "## Progress", "- second");
    assert_eq!(out, "## Progress\n\n- first\n- second\n## Notes\n");
}

#[test]
fn creates_a_h3_section_before_the_footer() {
    let text = "body\n<!-- ocli:footer -->\nkept\n";
    let out = append_to_section(text, 3, "Todo", "### Todo", "- first");
    assert_eq!(
        out,
        "body\n### Todo\n\n- first\n<!-- ocli:footer -->\nkept\n"
    );
}

#[test]
fn creates_at_eof_when_no_footer() {
    let text = "body\n";
    let out = append_to_section(text, 2, "Progress", "## Progress", "- first");
    assert_eq!(out, "body\n## Progress\n\n- first\n");
}
