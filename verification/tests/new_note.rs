use ocli::commands::CommandError;
use ocli::config::{ConfigFile, Tickets};
use ocli::new_note::{parse_set, plan_new_note, NewNote, INITIAL_STATUS};
use ocli::template::{FeatureTemplate, Timestamp};
use ocli::vault::VaultError;

const FEATURE_TEMPLATE: &str = r#"---
Created: "{{DATE:YYYY-MM-DD HH:mm}}"
aliases:
  - "{{VALUE:FeatureType}}-{{VALUE:TicketNumber}}"
type: "{{VALUE:FeatureType}}"
description:
owner:
epic:
relates-to:
blocked-by:
sprint:
repo:
jira: https://bddevops.atlassian.net/browse/{{VALUE:FeatureType}}-{{VALUE:TicketNumber}}
pr:
estimate:
status:
done: false
tags:
  - feature
  - codewaves
---
 Owner: `INPUT[suggester(optionQuery("notes/people")):owner]` |  Ticket Type: `INPUT[inlineSelect(option(BCP), option(NGP), option(Ticket), option(Epic)):type]` |  Estimate: `INPUT[inlineSelect(option(1), option(2), option(3), option(5), option(8)):estimate]` 
 Done: `INPUT[toggle:done]` 
 
 ---
# Description

# Acceptance Criteria

# Dev Notes

## Progress
## Notes
## Descisions

## Open Questions

<!-- ocli:footer -->
--- 

# Relates to 
```meta-bind
INPUT[listSuggester(optionQuery("notes")):relates-to]
```

# Blocked by 
```meta-bind
INPUT[listSuggester(optionQuery("notes")):blocked-by]
```
"#;

fn now() -> Timestamp {
    Timestamp { year: 2026, month: 9, day: 12, hour: 10, minute: 30 }
}

fn tickets() -> Tickets {
    let mut f = ConfigFile::default();
    f.vault.root = Some("/v".to_string());
    f.validate().ok().unwrap().tickets
}

fn template(text: &str) -> FeatureTemplate {
    FeatureTemplate::load("/v/templates/Feature.md", Ok(text.to_string())).ok().unwrap()
}

fn plan(
    branch: Option<&str>,
    text: &str,
    key: Option<&str>,
    description: Option<&str>,
    set: &[&str],
    repo: Option<&str>,
) -> Result<NewNote, CommandError> {
    let set: Vec<String> = set.iter().map(|s| s.to_string()).collect();
    plan_new_note(
        branch,
        Some("connected-module-item-api"),
        &tickets(),
        &Vec::new(),
        &template(text),
        &now(),
        key,
        description,
        &set,
        repo,
    )
}

#[test]
fn creates_the_note_from_branch_and_repo() {
    let note = plan(Some("NGP-500-fix-login"), FEATURE_TEMPLATE, None, None, &[], None).unwrap();
    assert_eq!(note.id, "NGP-500", "the id is the filename, composed from the branch captures");
    let text = note.text;
    assert!(text.starts_with("---\n"), "frontmatter first");
    assert!(text.contains("type: \"NGP\""));
    assert!(text.contains("- \"NGP-500\""), "aliases composed from captures");
    assert!(text.contains("browse/NGP-500"), "jira URL placeholder resolved inside an unquoted scalar");
    assert!(text.contains("repo: \"[[connected-module-item-api]]\""), "repo fill: olink from the origin's name");
    assert!(text.contains("status: \"In Progress\""), "every created note starts In Progress");
    assert!(text.contains("done: false"));
    assert!(!text.contains("{{"), "no placeholder survives");
    assert!(text.contains("## Progress"));
    assert!(text.contains("<!-- ocli:footer -->"), "footer marker preserved");
    assert!(text.contains("## Descisions"), "the template's typo is the user's to fix");
    assert!(text.contains("Created: \"2026-09-12 10:30\""));
    assert!(!note.key_differs);
    assert_eq!(INITIAL_STATUS, "In Progress");
}

#[test]
fn description_and_set_fill_the_rendered_note() {
    let note = plan(
        Some("NGP-500-fix-login"),
        FEATURE_TEMPLATE,
        None,
        Some("Add SSO"),
        &["FeatureType=XX"],
        Some("my-repo"),
    )
    .unwrap();
    let text = note.text;
    assert!(text.contains("description: \"Add SSO\""), "description fill");
    assert!(text.contains("type: \"XX\""), "--set is the highest value layer");
    assert!(text.contains("repo: \"[[my-repo]]\""), "--repo overrides the origin's name");
    assert_eq!(note.id, "NGP-500");
}

#[test]
fn explicit_key_overrides_the_branch_id_and_values() {
    let note = plan(Some("NGP-500-fix-login"), FEATURE_TEMPLATE, Some("BCP-900"), None, &[], None).unwrap();
    assert_eq!(note.id, "BCP-900");
    assert!(note.text.contains("type: \"BCP\""), "key-derived values beat branch values");
    assert!(note.text.contains("browse/BCP-900"));
    assert!(note.key_differs);
    let same = plan(Some("NGP-500-fix-login"), FEATURE_TEMPLATE, Some("ngp-500"), None, &[], None).unwrap();
    assert!(!same.key_differs, "only ASCII case differs");
}

#[test]
fn new_off_pattern_branch_is_refused() {
    let err = plan(Some("main"), FEATURE_TEMPLATE, None, None, &[], None).unwrap_err();
    let message = err.message();
    assert!(message.contains("main"), "names the branch: {message}");
    assert!(message.contains("TicketNumber"), "names the pattern: {message}");
}

#[test]
fn detached_head_is_refused() {
    let err = plan(None, FEATURE_TEMPLATE, None, None, &[], None).unwrap_err();
    assert!(err.message().contains("branch"), "says the branch is the problem: {}", err.message());
}

#[test]
fn unknown_construct_in_template_is_refused() {
    let err = plan(Some("NGP-500-fix-login"), "---\nstatus:\n---\nmade at {{TIME:HH:mm}}\n", None, None, &[], None)
        .unwrap_err();
    let message = err.message();
    assert!(message.contains("TIME:HH:mm"), "names the construct: {message}");
    assert!(message.contains("line 4"), "names the line: {message}");
}

#[test]
fn placeholder_without_a_value_is_refused() {
    let err = plan(Some("NGP-500-fix-login"), "---\nepic: \"{{VALUE:Epic}}\"\n---\nbody\n", None, None, &[], None)
        .unwrap_err();
    assert!(err.message().contains("Epic"), "names the placeholder: {}", err.message());
}

#[test]
fn missing_fill_field_appends_with_a_warning() {
    let note = plan(Some("NGP-500-fix-login"), "---\nepic:\n---\nbody\n", None, Some("Add SSO"), &[], None).unwrap();
    assert_eq!(
        note.text,
        "---\nepic:\nrepo: \"[[connected-module-item-api]]\"\ndescription: \"Add SSO\"\nstatus: \"In Progress\"\n---\nbody\n"
    );
}

#[test]
fn template_without_frontmatter_names_the_template() {
    let err = plan(Some("NGP-500-fix-login"), "no frontmatter\n", None, None, &[], None).unwrap_err();
    assert!(matches!(err, CommandError::Vault(VaultError::FrontmatterNotFound { ref path }) if path == "/v/templates/Feature.md"));
}

#[test]
fn malformed_set_is_refused() {
    let err = plan(Some("NGP-500-fix-login"), FEATURE_TEMPLATE, None, None, &["=x"], None).unwrap_err();
    assert_eq!(err.message(), "--set expects NAME=VALUE, got \"=x\"");
    let err = plan(Some("NGP-500-fix-login"), FEATURE_TEMPLATE, None, None, &["novalue"], None).unwrap_err();
    assert!(matches!(err, CommandError::MalformedSet { .. }));
    assert_eq!(parse_set("A=b=c"), Some(("A".to_string(), "b=c".to_string())));
}

#[test]
fn unsafe_explicit_key_is_refused() {
    let err = plan(Some("NGP-500-fix-login"), FEATURE_TEMPLATE, Some("../evil"), None, &[], None).unwrap_err();
    assert!(matches!(err, CommandError::Vault(VaultError::UnsafeNoteName { .. })));
}

#[test]
fn no_git_repository_is_refused() {
    let err = plan(None, FEATURE_TEMPLATE, Some("BCP-1"), None, &[], None).unwrap_err();
    assert!(matches!(err, CommandError::Vault(VaultError::CurrentBranchNotFound)));
    assert!(err.message().contains("branch"), "says the branch is the problem: {}", err.message());
}

#[test]
fn missing_template_names_the_path() {
    let err = FeatureTemplate::load(
        "/v/templates/Feature.md",
        Err(ocli::vault::IoFailure { kind: ocli::vault::IoKind::NotFound, message: "gone".to_string() }),
    )
    .err()
    .unwrap();
    let message = err.message();
    assert!(message.contains("templates/Feature.md"), "names the template path: {message}");
}
