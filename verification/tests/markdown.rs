use ocli::markdown::{parse, Document, Span, FOOTER_MARKER};


/// Frontmatter and body partition the text exactly, and every section
/// lives inside the body.
fn assert_tiling(doc: &Document, text: &str) {
    match doc.frontmatter() {
        Some(fm) => {
            assert_eq!(fm.start, 0);
            assert_eq!(doc.body().start, fm.end, "body starts at frontmatter end");
        }
        None => assert_eq!(doc.body().start, 0, "no frontmatter: body is whole file"),
    }
    assert_eq!(doc.body().end, text.len(), "body runs to end of text");

    let mut joined = String::new();
    if let Some(fm) = doc.frontmatter() {
        joined.push_str(doc.get(fm));
    }
    joined.push_str(doc.get(doc.body()));
    assert_eq!(joined, text, "frontmatter + body must reconstruct the text");

    for section in doc.sections() {
        assert!(
            section.content.start >= doc.body().start && section.content.end <= doc.body().end,
            "section {:?} must live inside the body",
            section.name
        );
    }
}

#[test]
fn simple_note_frontmatter_and_body() {
    let text = "---\nstatus: In Progress\n---\n\nSome prose.\n";
    let doc = parse(text);
    assert_tiling(&doc, text);

    let fm = doc.frontmatter().expect("frontmatter present");
    assert_eq!(doc.get(fm), "---\nstatus: In Progress\n---\n");
    assert_eq!(doc.get(doc.body()), "\nSome prose.\n");
    assert!(doc.sections().is_empty());
}

#[test]
fn no_frontmatter_when_file_starts_with_prose() {
    let text = "Just prose.\n## Notes\n- entry\n";
    let doc = parse(text);
    assert_tiling(&doc, text);
    assert!(doc.frontmatter().is_none());
    assert_eq!(doc.get(doc.body()), text);
    assert_eq!(doc.sections().len(), 1);
    assert_eq!(doc.sections()[0].name, "Notes");
}

#[test]
fn unclosed_frontmatter_is_none_and_body_is_whole_file() {
    let text = "---\nstatus: In Progress\nno closer ever\n";
    let doc = parse(text);
    assert_tiling(&doc, text);
    assert!(doc.frontmatter().is_none());
    assert_eq!(doc.get(doc.body()), text);
}

#[test]
fn delimiter_only_file_is_all_body() {
    let text = "---\n";
    let doc = parse(text);
    assert_tiling(&doc, text);
    assert!(doc.frontmatter().is_none());
    assert_eq!(doc.get(doc.body()), text);
}

#[test]
fn empty_frontmatter_block() {
    let text = "---\n---\nbody text\n";
    let doc = parse(text);
    assert_tiling(&doc, text);
    let fm = doc
        .frontmatter()
        .expect("empty frontmatter is still frontmatter");
    assert_eq!(doc.get(fm), "---\n---\n");
    assert_eq!(doc.get(doc.body()), "body text\n");
}

#[test]
fn empty_text() {
    let doc = parse("");
    assert_tiling(&doc, "");
    assert!(doc.frontmatter().is_none());
    assert_eq!(doc.body(), Span { start: 0, end: 0 });
    assert!(doc.sections().is_empty());
}

#[test]
fn file_without_trailing_newline() {
    let text = "---\nstatus: x\n---\nlast line";
    let doc = parse(text);
    assert_tiling(&doc, text);
    assert_eq!(doc.get(doc.body()), "last line");
}

#[test]
fn adjacent_sections_end_exactly_at_next_heading() {
    let text = "## Progress\n- entry\n## Notes\n- other\n";
    let doc = parse(text);
    assert_tiling(&doc, text);

    let sections = doc.sections();
    assert_eq!(sections.len(), 2);
    assert_eq!(sections[0].name, "Progress");
    assert_eq!(sections[1].name, "Notes");
    // No overlap, no gap: previous ends where next begins.
    assert_eq!(sections[0].content.end, sections[1].content.start);
    assert_eq!(doc.get(sections[1].content), "## Notes\n- other\n");
}

#[test]
fn heading_as_unterminated_last_line() {
    let text = "---\nstatus: x\n---\n## Notes";
    let doc = parse(text);
    assert_tiling(&doc, text);
    assert_eq!(doc.sections().len(), 1);
    assert_eq!(doc.sections()[0].name, "Notes");
    assert_eq!(doc.get(doc.sections()[0].content), "## Notes");
}

#[test]
fn crlf_note() {
    let text = "---\r\nstatus: x\r\n---\r\n## Notes\r\n- entry\r\n";
    let doc = parse(text);
    assert_tiling(&doc, text);

    let fm = doc.frontmatter().expect("CRLF frontmatter recognized");
    assert_eq!(doc.get(fm), "---\r\nstatus: x\r\n---\r\n");
    assert_eq!(doc.sections().len(), 1);
    assert_eq!(doc.sections()[0].name, "Notes", "no trailing \\r in name");
}

#[test]
fn heading_inside_fence_is_not_a_section() {
    let text = "## Progress\n- entry\n```dataview\n# Not A Heading\n```\n";
    let doc = parse(text);
    assert_tiling(&doc, text);
    assert_eq!(doc.sections().len(), 1, "fenced # line must not split");
    assert_eq!(doc.sections()[0].name, "Progress");
    assert_eq!(
        doc.get(doc.sections()[0].content),
        "## Progress\n- entry\n```dataview\n# Not A Heading\n```\n"
    );
}

#[test]
fn hashtag_and_seven_hashes_are_not_headings() {
    let text = "#tag line\n####### seven hashes\n";
    let doc = parse(text);
    assert_tiling(&doc, text);
    assert!(doc.sections().is_empty());
}

#[test]
fn single_hash_is_a_heading() {
    let text = "# Relates to\nwidget block\n";
    let doc = parse(text);
    assert_tiling(&doc, text);
    assert_eq!(doc.sections().len(), 1);
    assert_eq!(doc.sections()[0].name, "Relates to");
}

#[test]
fn footer_marker_clamps_sections_and_hides_footer_headings() {
    let text = "## Progress\n- did a thing\n<!-- ocli:footer -->\n# Relates to\n```meta-bind\nINPUT[listSuggester:relates-to]\n```\n";
    let doc = parse(text);
    assert_tiling(&doc, text);

    let marker_start = text.find(FOOTER_MARKER).unwrap();
    let footer = doc.footer().expect("marker present");
    assert_eq!(
        footer,
        Span {
            start: marker_start,
            end: text.len()
        }
    );
    assert_eq!(
        doc.get(footer),
        "<!-- ocli:footer -->\n# Relates to\n```meta-bind\nINPUT[listSuggester:relates-to]\n```\n"
    );

    let sections = doc.sections();
    assert_eq!(
        sections.len(),
        1,
        "footer headings are not content sections"
    );
    assert_eq!(sections[0].name, "Progress");
    assert_eq!(
        sections[0].content.end, marker_start,
        "content clamps at the marker line"
    );
}

#[test]
fn marker_inside_fence_is_not_a_footer() {
    let text = "## Notes\n```text\n<!-- ocli:footer -->\n```\n# After\n";
    let doc = parse(text);
    assert_tiling(&doc, text);
    assert!(doc.footer().is_none(), "marker inside a fence is content");
    assert_eq!(doc.sections().len(), 2);
    assert_eq!(doc.sections()[1].name, "After");
}

#[test]
fn first_marker_wins_and_later_ones_are_footer_text() {
    let text = "<!-- ocli:footer -->\n# Widgets\n<!-- ocli:footer -->\n";
    let doc = parse(text);
    assert_tiling(&doc, text);
    assert_eq!(doc.footer().expect("footer present").start, 0);
    assert!(
        doc.sections().is_empty(),
        "everything after the marker is footer"
    );
}

#[test]
fn marker_may_be_indented_and_crlf_terminated() {
    let text = "## Progress\r\n- entry\r\n  <!-- ocli:footer -->  \r\n# Widgets\r\n";
    let doc = parse(text);
    assert_tiling(&doc, text);
    assert!(
        doc.footer().is_some(),
        "trimmed line matches, CRLF tolerated"
    );
    assert_eq!(doc.sections().len(), 1);
}

#[test]
fn marker_inside_frontmatter_is_ignored() {
    let text = "---\n<!-- ocli:footer -->\n---\n## Notes\n";
    let doc = parse(text);
    assert_tiling(&doc, text);
    assert!(doc.footer().is_none());
    assert_eq!(doc.sections().len(), 1);
    assert_eq!(doc.sections()[0].name, "Notes");
}

#[test]
fn spans_are_byte_ranges_on_non_ascii_text() {
    let text = "---\ntitle: café\n---\n## Résumé\nnaïve ✓\n<!-- ocli:footer -->\n";
    let doc = parse(text);
    let fm = doc.frontmatter().unwrap();
    assert_eq!(fm, Span { start: 0, end: "---\ntitle: café\n---\n".len() });
    assert_eq!(&text[fm.start..fm.end], doc.get(fm));
    let body = doc.body();
    assert_eq!(body.end, text.len());
    let sections = doc.sections();
    assert_eq!(sections.len(), 1);
    assert_eq!(sections[0].name, "Résumé");
    let s = sections[0].content;
    assert_eq!(&text[s.start..s.end], "## Résumé\nnaïve ✓\n");
    assert_eq!(doc.get(s), "## Résumé\nnaïve ✓\n");
    let footer = doc.footer().unwrap();
    assert_eq!(&text[footer.start..footer.end], "<!-- ocli:footer -->\n");
}
