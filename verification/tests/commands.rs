use ocli::commands::{
    after_attempt, edit_step, fm_edit, fm_value, is_note_file, section_entry, section_target, status_edit, swap_file_name,
    ticket_note_file, uri_for, CommandError, EditDecision, MAX_ATTEMPTS,
};
use ocli::config::{ConfigFile, SectionFormat, SectionSpec, SectionsCfg};
use ocli::ftypes::{Field, FieldType};
use ocli::status::Status;
use ocli::template::Timestamp;
use ocli::section::append_to_section;
use ocli::vault::{read_file_to_str, IoFailure, IoKind, VaultError};
use ocli::context::{check_dirs, ContextError};

const NOTE: &str = "---\ndescription: Add SSO to the settings page\nstatus: In Progress\nrepo: connected-module-item-api\ndone: false\ntags:\n  - feature\n---\n# Description\n\n## Progress\n\n- kicked off\n";

fn read_float(s: &str) -> Option<String> {
    let value: f32 = s.parse().ok()?;
    if !value.is_finite() {
        return None;
    }
    let rendered = value.to_string();
    Some(if rendered.contains('.') { rendered } else { format!("{rendered}.0") })
}

#[test]
fn uri_percent_encodes_the_whole_path() {
    let uri = uri_for("/tmp/My Vault/notes/features/BCP-1.md");
    assert_eq!(
        uri, "obsidian://open?path=%2Ftmp%2FMy%20Vault%2Fnotes%2Ffeatures%2FBCP%2D1%2Emd",
        "everything but unreserved characters encoded (Obsidian docs: / → %2F, space → %20)"
    );
}

#[test]
fn uri_encodes_hash_and_unicode() {
    let uri = uri_for("/vault/CAFÉ#1.md");
    assert_eq!(uri, "obsidian://open?path=%2Fvault%2FCAF%C3%89%231%2Emd");
}

#[test]
fn complete_sets_status_and_syncs_done() {
    let text = status_edit(NOTE, "BCP-74043.md", &Status::Complete).unwrap();
    assert!(text.contains("status: \"Complete\""), "got: {text}");
    assert!(text.contains("done: true"), "synced true: {text}");
    assert!(text.contains("description: Add SSO to the settings page"), "sibling kept: {text}");
    assert!(text.contains("- kicked off"), "body kept: {text}");
}

#[test]
fn other_status_clears_done() {
    let note = NOTE.replace("done: false", "done: true");
    let text = status_edit(&note, "NGP-1.md", &Status::Backlog).unwrap();
    assert!(text.contains("status: \"Backlog\""), "got: {text}");
    assert!(text.contains("done: false"), "synced false: {text}");
}

#[test]
fn status_appends_missing_fields_and_needs_a_frontmatter() {
    let text = status_edit("---\nrepo: x\n---\nbody\n", "X.md", &Status::InReview).unwrap();
    assert_eq!(text, "---\nrepo: x\nstatus: \"In Review\"\ndone: false\n---\nbody\n");
    let err = status_edit("just prose\n", "X.md", &Status::Complete).unwrap_err();
    assert!(matches!(err, VaultError::FrontmatterNotFound { ref path } if path == "X.md"));
}

#[test]
fn sets_a_field_and_preserves_the_note() {
    let text = fm_edit(NOTE, "BCP-74043.md", "description", &Field::Str("Updated".into())).unwrap();
    assert!(text.contains("description: \"Updated\""), "field set: {text}");
    assert!(text.contains("status: In Progress"), "sibling kept: {text}");
    assert!(text.contains("repo: connected-module-item-api"), "{text}");
    assert!(text.contains("done: false"), "{text}");
    assert!(text.contains("tags:\n  - feature"), "block list kept: {text}");
    assert!(text.contains("# Description"), "body kept: {text}");
    assert!(text.contains("- kicked off"), "section kept: {text}");
}

#[test]
fn writes_managed_fields_without_done_sync() {
    let text = fm_edit(NOTE, "BCP-74043.md", "status", &Field::Str("Complete".into())).unwrap();
    assert!(text.contains("status: \"Complete\""), "got: {text}");
    assert!(text.contains("done: false"), "fm does not sync done: {text}");
}

#[test]
fn refuses_ignored_fields() {
    let cfg = ConfigFile::default();
    let err = fm_value(&cfg.frontmatter.ignore, &cfg.frontmatter.types, "relates-to", "x", &read_float).unwrap_err();
    assert!(err.message().contains("ignore list"), "got: {}", err.message());
}

#[test]
fn misspelled_field_suggests_the_closest_key() {
    let err = fm_edit(NOTE, "BCP-74043.md", "statuz", &Field::Str("Backlog".into())).unwrap_err();
    let message = err.message();
    assert!(message.contains("status"), "got: {message}");
    assert!(message.contains("did you mean"), "got: {message}");
}

#[test]
fn fm_value_coerces_to_the_declared_type() {
    let ignore = vec!["relates-to".to_string()];
    let types = vec![
        ("estimate".to_string(), FieldType::Float),
        ("tags".to_string(), FieldType::List(Box::new(FieldType::Str))),
    ];
    assert_eq!(fm_value(&ignore, &types, "estimate", "3", &read_float).unwrap(), Field::Float("3.0".into()));
    assert_eq!(
        fm_value(&ignore, &types, "tags", "a, b", &read_float).unwrap(),
        Field::List(vec![Field::Str("a".into()), Field::Str("b".into())])
    );
    assert_eq!(fm_value(&ignore, &types, "owner", "Ada", &read_float).unwrap(), Field::Str("Ada".into()));
    let err = fm_value(&ignore, &types, "estimate", "lots", &read_float).unwrap_err();
    assert!(matches!(err, CommandError::Field(_)));
}

#[test]
fn section_entries_are_log_lines_or_checklist_items() {
    let now = Timestamp { year: 2026, month: 9, day: 12, hour: 10, minute: 30 };
    assert_eq!(section_entry(SectionFormat::Log, "shipped it", &now).unwrap(), "- 2026-09-12 10:30 — shipped it");
    assert_eq!(section_entry(SectionFormat::List, "Fix that bug", &now).unwrap(), "- [ ] Fix that bug");
    assert!(matches!(section_entry(SectionFormat::List, "a\nb", &now), Err(CommandError::MultilineEntry)));
    assert!(matches!(section_entry(SectionFormat::Log, "a\rb", &now), Err(CommandError::MultilineEntry)));
}

#[test]
fn section_targets_resolve_from_config() {
    let sections = SectionsCfg {
        entries: vec![
            ("todos".to_string(), SectionSpec { heading: "### Todo".to_string(), format: SectionFormat::List }),
            ("bad".to_string(), SectionSpec { heading: "Todo".to_string(), format: SectionFormat::Log }),
        ],
    };
    let (level, title, format) = section_target(&sections, "todos").unwrap();
    assert_eq!((level, title.as_str(), format), (3, "Todo", SectionFormat::List));
    assert!(matches!(section_target(&sections, "nope"), Err(CommandError::UnknownSection { .. })));
    assert!(matches!(section_target(&sections, "bad"), Err(CommandError::InvalidHeading { .. })));
}

#[test]
fn edit_error_retries_when_the_note_changed() {
    assert!(matches!(after_attempt("v1", Ok("v2".to_string()), "v1"), EditDecision::Write(ref t) if t == "v2"));
    assert!(matches!(after_attempt("v1", Ok("v2".to_string()), "theirs"), EditDecision::Retry));
    let injected = VaultError::PathNotFound { path: "injected".to_string() };
    assert!(matches!(after_attempt("v1", Err(injected), "theirs"), EditDecision::Retry));
    let injected = VaultError::PathNotFound { path: "injected".to_string() };
    match after_attempt("original", Err(injected), "original") {
        EditDecision::Fail(e) => assert!(e.message().contains("injected")),
        _ => panic!("an error against unchanged content propagates"),
    }
    assert_eq!(MAX_ATTEMPTS, 5);
}

#[test]
fn swap_file_is_hidden_from_the_scan() {
    let name = swap_file_name("dir/BCP-6.md", Some("BCP-6.md")).unwrap();
    assert!(name.starts_with('.'), "hidden: {name}");
    assert!(!is_note_file(true, &name));
    assert!(matches!(swap_file_name("/", None), Err(VaultError::PathNotFound { .. })));
}

#[test]
fn lists_only_visible_markdown_files_sorted() {
    assert!(is_note_file(true, "BCP-74043.md"));
    assert!(!is_note_file(true, "notes.txt"));
    assert!(!is_note_file(true, ".hidden.md"));
    assert!(!is_note_file(false, "sub.md"));
}

#[test]
fn ticket_note_file_comes_from_the_branch() {
    let cfg = {
        let mut f = ConfigFile::default();
        f.vault.root = Some("/v".to_string());
        f.validate().ok().unwrap()
    };
    assert_eq!(ticket_note_file(Some("NGP-500-fix-login"), &cfg.tickets).unwrap(), "NGP-500.md");
    let err = ticket_note_file(None, &cfg.tickets).unwrap_err();
    assert!(err.message().contains("could not find current branch"));
    let err = ticket_note_file(Some("main"), &cfg.tickets).unwrap_err();
    let message = err.message();
    assert!(message.contains("main") && message.contains("FeatureType"), "{message}");
}

#[test]
fn conflicting_write_retries_on_fresh_content() {
    assert!(matches!(after_attempt("v1", Ok("edited v1".to_string()), "theirs"), EditDecision::Retry));
    assert!(
        matches!(after_attempt("theirs", Ok("edited theirs".to_string()), "theirs"), EditDecision::Write(ref t) if t == "edited theirs")
    );
}

#[test]
fn edit_error_propagates_when_the_note_did_not_change() {
    let injected = VaultError::PathNotFound { path: "injected".to_string() };
    match after_attempt("original", Err(injected), "original") {
        EditDecision::Fail(e) => assert!(e.message().contains("injected"), "got: {}", e.message()),
        _ => panic!("an error against unchanged content propagates"),
    }
}

#[test]
fn missing_note_errors_naming_the_path() {
    let err = read_file_to_str(
        "/tmp/x/nope.md",
        Err(IoFailure { kind: IoKind::NotFound, message: "No such file or directory".to_string() }),
    )
    .unwrap_err();
    assert!(err.message().contains("nope.md"), "got: {}", err.message());
    let err = read_file_to_str("/tmp/x/a.md", Err(IoFailure { kind: IoKind::Other, message: "denied".to_string() }))
        .unwrap_err();
    assert!(matches!(err, VaultError::IoError { .. }));
    assert_eq!(read_file_to_str("/tmp/x/a.md", Ok("body".to_string())).unwrap(), "body");
}

#[test]
fn outside_a_repository_refuses_the_missing_branch() {
    let cfg = {
        let mut f = ConfigFile::default();
        f.vault.root = Some("/v".to_string());
        f.validate().ok().unwrap()
    };
    let err = ticket_note_file(None, &cfg.tickets).unwrap_err();
    let message = err.message();
    assert!(message.contains("could not find current branch"), "names the missing branch: {message}");
}

#[test]
fn open_off_pattern_branch_is_refused() {
    let cfg = {
        let mut f = ConfigFile::default();
        f.vault.root = Some("/v".to_string());
        f.validate().ok().unwrap()
    };
    let message = ticket_note_file(Some("main"), &cfg.tickets).unwrap_err().message();
    assert!(message.contains("main"), "names the branch: {message}");
    assert!(message.contains("FeatureType"), "names the pattern: {message}");
}

#[test]
fn appends_a_log_entry_to_a_defined_section() {
    let sections = SectionsCfg {
        entries: vec![("progress".to_string(), SectionSpec { heading: "## Progress".to_string(), format: SectionFormat::Log })],
    };
    let (level, title, format) = section_target(&sections, "progress").unwrap();
    let now = Timestamp { year: 2026, month: 9, day: 12, hour: 10, minute: 30 };
    let entry = section_entry(format, "shipped it", &now).unwrap();
    let text = append_to_section(NOTE, level, &title, "## Progress", &entry);
    assert!(text.contains("## Progress"), "heading kept: {text}");
    assert!(text.contains("- kicked off"), "existing entry kept: {text}");
    assert!(text.contains("— shipped it"), "new entry appended: {text}");
    assert!(text.ends_with("- kicked off\n- 2026-09-12 10:30 — shipped it\n"), "{text}");
}

#[test]
fn creates_a_user_defined_h3_list_section() {
    let sections = SectionsCfg {
        entries: vec![("todos".to_string(), SectionSpec { heading: "### Todo".to_string(), format: SectionFormat::List })],
    };
    let (level, title, format) = section_target(&sections, "todos").unwrap();
    let now = Timestamp { year: 2026, month: 9, day: 12, hour: 10, minute: 30 };
    let entry = section_entry(format, "Fix that bug", &now).unwrap();
    let text = append_to_section(NOTE, level, &title, "### Todo", &entry);
    assert!(text.contains("### Todo"), "h3 heading created: {text}");
    assert!(text.contains("- [ ] Fix that bug"), "list entry: {text}");
}

#[test]
fn rejects_missing_vault_directory() {
    let err = check_dirs("/definitely/not/a/vault", false, "/definitely/not/a/vault/notes/features", false).unwrap_err();
    assert!(matches!(err, ContextError::VaultDoesNotExist(_)));
    assert!(err.message().contains("/definitely/not/a/vault"), "error should name the path: {}", err.message());
}

#[test]
fn rejects_missing_features_dir() {
    let err = check_dirs("/tmp/v", true, "/tmp/v/notes/features", false).unwrap_err();
    assert!(matches!(err, ContextError::FeaturesDirMissing(_)));
    assert!(err.message().contains("notes/features"), "error should name the configured path: {}", err.message());
    assert!(check_dirs("/tmp/v", true, "/tmp/v/notes/features", true).is_ok());
}

#[test]
fn edit_gives_up_after_the_last_attempt() {
    let retry = edit_step(1, "/v/n.md", "a", Ok("b".to_string()), "c");
    assert!(matches!(retry, EditDecision::Retry));
    let last = edit_step(MAX_ATTEMPTS, "/v/n.md", "a", Ok("b".to_string()), "c");
    match last {
        EditDecision::Fail(ocli::vault::VaultError::NoteChangedUnderUs { path }) => assert_eq!(path, "/v/n.md"),
        _ => panic!("expected the edit to give up"),
    }
    let write = edit_step(MAX_ATTEMPTS, "/v/n.md", "a", Ok("b".to_string()), "a");
    assert!(matches!(write, EditDecision::Write(t) if t == "b"));
}

#[test]
fn missing_section_names_the_heading_and_path() {
    let text = "## Progress\n- a\n";
    assert_eq!(ocli::commands::section_text(text, 2, "Progress", "## Progress", "/v/n.md").unwrap(), "## Progress\n- a\n");
    match ocli::commands::section_text(text, 2, "Tasks", "## Tasks", "/v/n.md") {
        Err(CommandError::SectionNotFound { heading, path }) => {
            assert_eq!(heading, "## Tasks");
            assert_eq!(path, "/v/n.md");
        },
        _ => panic!("expected SectionNotFound"),
    }
}
