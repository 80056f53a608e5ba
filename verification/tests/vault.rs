use ocli::pattern::Pattern;
use ocli::vault::{branch_captures, capture_map, ensure_safe_note_name, note_name, VaultError};

/// The default `[tickets]` branch pattern.
fn default_pattern() -> Pattern {
    Pattern::new(r"^(?<FeatureType>[A-Z]+)-(?<TicketNumber>\d+)").unwrap()
}

fn lookup<'a>(map: &'a [(String, String)], name: &str) -> Option<&'a String> {
    map.iter().find(|(k, _)| k == name).map(|(_, v)| v)
}

#[test]
fn extracts_all_named_capture_groups() {
    let regex = default_pattern();
    let caps = branch_captures("BCP-14392", &regex).unwrap();
    let captures = capture_map(&regex, &caps);

    assert_eq!(lookup(&captures, "FeatureType"), Some(&"BCP".to_string()));
    assert_eq!(lookup(&captures, "TicketNumber"), Some(&"14392".to_string()));
    assert_eq!(captures.len(), 2);
}

#[test]
fn extracts_from_branches_with_suffixes() {
    let regex = default_pattern();
    let caps = branch_captures("BCP-14392-fix-login", &regex).unwrap();
    let captures = capture_map(&regex, &caps);

    assert_eq!(lookup(&captures, "FeatureType"), Some(&"BCP".to_string()));
    assert_eq!(lookup(&captures, "TicketNumber"), Some(&"14392".to_string()));
}

#[test]
fn extracts_captures_beyond_the_id_templates_references() {
    let regex = Pattern::new(r"^(?<FeatureType>[A-Z]+)-(?<TicketNumber>\d+)-(?<Epic>\w+)").unwrap();

    let caps = branch_captures("BCP-14392-golden", &regex).unwrap();
    let captures = capture_map(&regex, &caps);

    assert_eq!(lookup(&captures, "Epic"), Some(&"golden".to_string()));
    assert_eq!(captures.len(), 3);
}

#[test]
fn omits_optional_groups_that_do_not_participate() {
    let regex =
        Pattern::new(r"^(?<FeatureType>[A-Z]+)-(?<TicketNumber>\d+)(?:-(?<Epic>\w+))?").unwrap();

    let caps = branch_captures("BCP-14392", &regex).unwrap();
    let captures = capture_map(&regex, &caps);

    assert_eq!(lookup(&captures, "FeatureType"), Some(&"BCP".to_string()));
    assert!(lookup(&captures, "Epic").is_none());
}

#[test]
fn non_matching_branch_errors_naming_branch_and_pattern() {
    let err = branch_captures("main", &default_pattern()).unwrap_err();

    assert!(matches!(err, VaultError::CouldNotParseBranchName { .. }));
    let message = err.message();
    assert!(message.contains("main"), "names the branch: {message}");
    assert!(message.contains("TicketNumber"), "names the pattern: {message}");
}

#[test]
fn composes_custom_id_templates_as_configured() {
    let regex = default_pattern();
    let caps = branch_captures("BCP-14392-fix-login", &regex).unwrap();

    let name = note_name("BCP-14392-fix-login", &regex, &caps, "Ticket-{TicketNumber}").unwrap();

    assert_eq!(name, "Ticket-14392");
}

#[test]
fn unresolved_placeholder_errors_naming_the_mangled_name() {
    let regex =
        Pattern::new(r"^(?<FeatureType>[A-Z]+)-(?<TicketNumber>\d+)(?:-(?<Epic>\w+))?").unwrap();
    let caps = branch_captures("BCP-14392", &regex).unwrap();

    let err = note_name("BCP-14392", &regex, &caps, "{FeatureType}-{TicketNumber}-{Epic}").unwrap_err();

    assert!(matches!(err, VaultError::CouldNotComposeNoteName { .. }));
    let message = err.message();
    assert!(message.contains("{Epic}"), "shows what failed to resolve: {message}");
}

#[test]
fn unsafe_note_name_errors() {
    let regex = Pattern::new(r"^(?<Id>[A-Z]+/\d+)").unwrap();
    let caps = branch_captures("BCP/14392", &regex).unwrap();

    let err = note_name("BCP/14392", &regex, &caps, "{Id}").unwrap_err();

    assert!(matches!(err, VaultError::UnsafeNoteName { .. }));
}

#[test]
fn unsafe_explicit_key_errors() {
    let err = ensure_safe_note_name("BCP-14392-fix-login", "../evil").unwrap_err();

    assert!(matches!(err, VaultError::UnsafeNoteName { .. }));
    let err = ensure_safe_note_name("BCP-14392-fix-login", ".hidden").unwrap_err();
    assert!(matches!(err, VaultError::UnsafeNoteName { .. }));
    let err = ensure_safe_note_name("BCP-14392-fix-login", "").unwrap_err();
    assert!(matches!(err, VaultError::UnsafeNoteName { .. }));
}

#[test]
fn default_id_template_composes_the_ticket_key() {
    let regex = default_pattern();
    let caps = branch_captures("NGP-500-fix-login", &regex).unwrap();
    let name = note_name("NGP-500-fix-login", &regex, &caps, "{FeatureType}-{TicketNumber}").unwrap();
    assert_eq!(name, "NGP-500");
}

#[test]
fn invalid_pattern_is_refused() {
    assert!(Pattern::new("(?P<").is_err());
    let p = default_pattern();
    assert_eq!(p.as_str(), r"^(?<FeatureType>[A-Z]+)-(?<TicketNumber>\d+)");
    assert_eq!(p.capture_names().len(), 3);
    assert_eq!(p.capture_names()[0], None);
}

#[test]
fn vault_error_messages_name_their_inputs() {
    let err = VaultError::PlaceholderWithoutValue { name: "Epic".to_string(), line: 12 };
    assert_eq!(
        err.message(),
        "template placeholder \"Epic\" on line 12 has no value; layers are --set > key argument > branch captures > [template.values]"
    );
    let err = VaultError::FieldNotFound { field: "statuz".to_string(), suggestion: Some("status".to_string()) };
    assert_eq!(err.message(), "frontmatter has no field \"statuz\"; did you mean \"status\"?");
    let err = VaultError::NoteChangedUnderUs { path: "a/B.md".to_string() };
    assert_eq!(err.message(), "the note at a/B.md kept changing while editing; try again");
}
