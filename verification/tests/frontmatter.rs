use ocli::frontmatter::{append_field, inner_yaml, set_field, set_or_append_field, splice_inner};
use ocli::ftypes::Field;
use ocli::markdown::parse;
use ocli::vault::VaultError;

#[test]
fn missing_field_errors_with_a_suggestion() {
    let fm = "estimate:\nstatus: Backlog\n";
    let err = set_field(fm, "estmate", &Field::Str("3".into())).unwrap_err();
    assert!(matches!(err, VaultError::FieldNotFound { .. }));
    let message = err.message();
    assert!(message.contains("estimate"), "suggests the closest key: {message}");
}

#[test]
fn append_field_adds_the_field_at_the_end() {
    let out = append_field("status: Backlog\n", "estimate", &Field::Str("3".into())).unwrap();
    assert_eq!(out, "status: Backlog\nestimate: \"3\"\n");
}

#[test]
fn append_field_keeps_crlf_endings() {
    let out = append_field("status: Backlog\r\n", "estimate", &Field::Str("3".into())).unwrap();
    assert_eq!(out, "status: Backlog\r\nestimate: \"3\"\r\n");
}

#[test]
fn replaces_a_scalar_field_in_place() {
    let fm = "Created: 2026-09-05 10:30\ndescription:\nrepo:\nstatus: Backlog\n";
    let out = set_field(fm, "repo", &Field::Olink("connected-module-item-api".into())).unwrap();
    assert_eq!(
        out,
        "Created: 2026-09-05 10:30\ndescription:\nrepo: \"[[connected-module-item-api]]\"\nstatus: Backlog\n"
    );
}

#[test]
fn replaces_a_block_region_with_the_scalar_line() {
    let fm = "tags:\n  - feature\n  - codewaves\nstatus: Backlog\n";
    let out = set_field(fm, "tags", &Field::Str("x".into())).unwrap();
    assert_eq!(out, "tags: \"x\"\nstatus: Backlog\n");
}

#[test]
fn blank_line_terminates_the_region() {
    let fm = "status: Backlog\n\nrepo:\n";
    let out = set_field(fm, "status", &Field::Str("Done".into())).unwrap();
    assert_eq!(out, "status: \"Done\"\n\nrepo:\n");
}

#[test]
fn olink_wraps_bare_names_and_keeps_full_links() {
    let out = set_field("repo:\n", "repo", &Field::Olink("connected-module-item-api".into())).unwrap();
    assert_eq!(out, "repo: \"[[connected-module-item-api]]\"\n");
    let out = set_field("repo:\n", "repo", &Field::Olink("[[path/Ada|Ada]]".into())).unwrap();
    assert_eq!(out, "repo: \"[[path/Ada|Ada]]\"\n");
}

#[test]
fn olink_with_unbalanced_brackets_is_rejected() {
    let err = set_field("repo:\n", "repo", &Field::Olink("a]b".into())).unwrap_err();
    assert!(matches!(err, VaultError::InvalidFieldValue { .. }));
}

#[test]
fn str_with_newline_is_rejected() {
    let err = set_field("description:\n", "description", &Field::Str("a\nb".into())).unwrap_err();
    assert!(matches!(err, VaultError::InvalidFieldValue { .. }));
}

#[test]
fn str_escapes_backslash_then_quote() {
    let out = set_field("description:\n", "description", &Field::Str("a\"b\\c".into())).unwrap();
    assert_eq!(out, "description: \"a\\\"b\\\\c\"\n");
}

#[test]
fn set_or_append_replaces_when_present() {
    let fm = "status: Backlog\nrepo:\n";
    let out = set_or_append_field(fm, "status", &Field::Str("Done".into())).unwrap();
    assert_eq!(out, "status: \"Done\"\nrepo:\n");
}

#[test]
fn set_or_append_appends_when_missing() {
    let out = set_or_append_field("status: Backlog\n", "estimate", &Field::Str("3".into())).unwrap();
    assert_eq!(out, "status: Backlog\nestimate: \"3\"\n");
}

#[test]
fn splice_inner_round_trips_lf_documents() {
    let text = "---\nstatus: Backlog\n---\n# body\n";
    let document = parse(text);
    let span = document.frontmatter().unwrap();
    let inner = inner_yaml(document.get(span));
    let edited = set_field(inner, "status", &Field::Str("Done".into())).unwrap();
    let out = splice_inner(text, span, &edited);
    assert_eq!(out, "---\nstatus: \"Done\"\n---\n# body\n");
}

#[test]
fn splice_inner_preserves_crlf_delimiters() {
    let text = "---\r\nstatus: Backlog\r\n---\r\n# body\r\n";
    let document = parse(text);
    let span = document.frontmatter().unwrap();
    let inner = inner_yaml(document.get(span));
    let edited = set_field(inner, "status", &Field::Str("Done".into())).unwrap();
    let out = splice_inner(text, span, &edited);
    assert_eq!(out, "---\r\nstatus: \"Done\"\r\n---\r\n# body\r\n");
}

#[test]
fn splice_of_the_unchanged_inner_gives_back_the_text() {
    for text in ["---\nstatus: x\n---\nbody\n", "---\r\na: 1\r\n---\r\n", "---\n---\n", "---\nx: 1\n---"] {
        let document = parse(text);
        let span = document.frontmatter().unwrap();
        let inner = inner_yaml(document.get(span));
        assert_eq!(splice_inner(text, span, inner), text);
    }
}

#[test]
fn spliced_inner_reads_back_after_a_new_parse() {
    for text in ["---\nstatus: x\n---\nbody\n", "---\r\na: 1\r\n---\r\n", "---\nx: 1\n---"] {
        let document = parse(text);
        let span = document.frontmatter().unwrap();
        let new_inner = "a: 1\nb:\n  - \"c\"\n";
        let out = splice_inner(text, span, new_inner);
        let again = parse(&out);
        let span2 = again.frontmatter().unwrap();
        assert_eq!(inner_yaml(again.get(span2)), new_inner);
        assert_eq!(&out[span2.end..], &text[span.end..]);
    }
}
