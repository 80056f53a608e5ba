use ocli::config::{
    default_ignore, extract_placeholders, Config, ConfigError, ConfigFile, ConfigFileError, ConfigSource, FieldType,
    LoadError, DEFAULT_FEATURES_DIR, DEFAULT_ID_TEMPLATE, DEFAULT_BRANCH_PATTERN, DEFAULT_PEOPLE_DIR,
    DEFAULT_TEMPLATE_PATH, SectionFormat, SectionSpec,
};
use ocli::vault::branch_captures;

fn valid_minimal() -> ConfigFile {
    let mut cfg = ConfigFile::default();
    cfg.vault.root = Some("/home/me/vault".to_string());
    cfg
}

fn file_with_root(root: &str) -> ConfigFile {
    let mut cfg = ConfigFile::default();
    cfg.vault.root = Some(root.to_string());
    cfg
}

fn not_found(path: &str) -> ConfigFileError {
    ConfigFileError::ConfigFileNotFound { path: path.to_string(), error: "No such file or directory".to_string() }
}

#[test]
fn minimal_config_applies_all_defaults() {
    let cfg = valid_minimal();
    assert_eq!(cfg.vault.root, Some("/home/me/vault".to_string()));
    assert_eq!(cfg.vault.features_dir, DEFAULT_FEATURES_DIR);
    assert_eq!(cfg.vault.people_dir, DEFAULT_PEOPLE_DIR);
    assert_eq!(cfg.frontmatter.ignore, default_ignore());
    assert!(cfg.frontmatter.types.is_empty());
    assert_eq!(cfg.tickets.branch_pattern, DEFAULT_BRANCH_PATTERN);
    assert_eq!(cfg.tickets.id, DEFAULT_ID_TEMPLATE);
    assert!(cfg.sections.entries.is_empty(), "no default sections");
}

#[test]
fn missing_root_fails_validation_naming_sources() {
    let mut cfg = ConfigFile::default();
    cfg.vault.features_dir = "f".to_string();
    let err = cfg.validate().err().unwrap();
    assert!(matches!(err, ConfigError::MissingVaultRoot), "expected MissingVaultRoot: {}", err.message());
    assert!(
        err.message().contains("OCLI_VAULT") && err.message().contains("--vault"),
        "error should name the alternative sources: {}",
        err.message()
    );
}

#[test]
fn validate_produces_compiled_pattern_and_working_id() {
    let cfg = valid_minimal().validate().ok().unwrap();

    let caps = cfg.tickets.pattern.captures("BCP-74043-fix-login").unwrap();
    assert_eq!(caps[1].as_deref(), Some("BCP"));
    assert_eq!(caps[2].as_deref(), Some("74043"));
    assert_eq!(cfg.tickets.id_for(&caps), "BCP-74043");

    assert!(!cfg.tickets.pattern.is_match("main"));
}

#[test]
fn validate_rejects_unnamed_capture_groups() {
    let mut cfg = valid_minimal();
    cfg.tickets.branch_pattern = r"^(?<Key>[A-Z]+)-(\d+)".into();
    let err = cfg.validate().err().unwrap();
    assert!(err.message().contains("unnamed"), "error should explain the naming contract: {}", err.message());
}

#[test]
fn validate_rejects_pattern_without_named_captures() {
    let mut cfg = valid_minimal();
    cfg.tickets.branch_pattern = r"[A-Z]+-\d+".into();
    assert!(matches!(cfg.validate().err().unwrap(), ConfigError::NoNamedCaptures));
}

#[test]
fn validate_rejects_invalid_regex_with_source() {
    let mut cfg = valid_minimal();
    cfg.tickets.branch_pattern = "(?P<".into();
    let err = cfg.validate().err().unwrap();
    assert!(matches!(err, ConfigError::Regex { .. }));
    assert!(err.message().contains("(?P<"));
}

#[test]
fn validate_rejects_managed_fields_naming_the_owner() {
    let mut cfg = valid_minimal();
    cfg.frontmatter.types.push(("status".into(), FieldType::Str));
    let err = cfg.validate().err().unwrap();
    assert!(matches!(err, ConfigError::ManagedField { .. }));
    assert!(err.message().contains("ocli status"), "error should name the owning command: {}", err.message());
}

#[test]
fn validate_rejects_ignore_list_type_collision() {
    let mut cfg = valid_minimal();
    cfg.frontmatter.types.push(("relates-to".into(), FieldType::Str));
    assert!(matches!(cfg.validate().err().unwrap(), ConfigError::IgnoreTypeCollision { .. }));
}

#[test]
fn validate_rejects_unknown_id_placeholder() {
    let mut cfg = valid_minimal();
    cfg.tickets.id = "{NotACapture}".into();
    let err = cfg.validate().err().unwrap();
    assert!(
        matches!(err, ConfigError::UnknownPlaceholder { ref name } if name == "NotACapture"),
        "error should name the placeholder: {}",
        err.message()
    );
}

#[test]
fn validate_rejects_malformed_id_template() {
    let mut cfg = valid_minimal();
    cfg.tickets.id = "{FeatureType".into();
    assert!(matches!(cfg.validate().err().unwrap(), ConfigError::MalformedIdTemplate { .. }));
}

#[test]
fn validate_rejects_relative_root() {
    let mut cfg = valid_minimal();
    cfg.vault.root = Some("vault".into());
    assert!(matches!(cfg.validate().err().unwrap(), ConfigError::RelativeRoot(_)));
}

#[test]
fn validate_accepts_a_single_named_group() {
    let mut cfg = valid_minimal();
    cfg.tickets.branch_pattern = r"^(?<Id>[A-Z]+-\d+)".into();
    cfg.tickets.id = "{Id}".into();
    let cfg = cfg.validate().ok().unwrap();
    let caps = branch_captures("BCP-7-x", &cfg.tickets.pattern).unwrap();
    assert_eq!(cfg.tickets.id_for(&caps), "BCP-7");
}

#[test]
fn load_happy_path_returns_validated_config() {
    let cfg = Config::load_from(ConfigSource::Default, "/tmp/x/config.toml", Ok(file_with_root("/tmp/x")), None, None)
        .ok()
        .unwrap();
    assert_eq!(cfg.vault.root, "/tmp/x");
    assert!(cfg.sections.entries.is_empty());
    assert_eq!(cfg.template.path, DEFAULT_TEMPLATE_PATH);
    assert!(cfg.template.values.is_empty());
}

#[test]
fn load_wraps_errors_with_file_context() {
    let err = Config::load_from(
        ConfigSource::Default,
        "/tmp/x/config.toml",
        Err(ConfigFileError::Parse {
            path: "/tmp/x/config.toml".to_string(),
            source: "strng is not a valid field type".to_string(),
        }),
        None,
        None,
    )
    .err()
    .unwrap();
    let msg = err.message();
    assert!(
        msg.contains("invalid config in") && msg.contains("strng"),
        "context chain should name file and cause: {msg}"
    );
    let err = Config::load_from(
        ConfigSource::Default,
        "/tmp/x/config.toml",
        Ok(ConfigFile::default()),
        None,
        None,
    )
    .err()
    .unwrap();
    assert!(matches!(err, LoadError::Invalid { error: ConfigError::MissingVaultRoot, .. }));
    assert!(err.message().starts_with("invalid config in /tmp/x/config.toml: no vault root"));
}

#[test]
fn missing_config_file_recovers_when_vault_comes_from_elsewhere() {
    let missing = "/tmp/none/config.toml";
    let cfg = Config::load_from(
        ConfigSource::Default,
        missing,
        Err(not_found(missing)),
        Some("/elsewhere/vault".to_string()),
        None,
    )
    .ok()
    .unwrap();
    assert_eq!(cfg.vault.root, "/elsewhere/vault");
    assert_eq!(cfg.template.path, DEFAULT_TEMPLATE_PATH);
}

#[test]
fn missing_config_file_without_vault_is_onboarding_error() {
    let missing = "/tmp/none/config.toml";
    let err = Config::load_from(ConfigSource::Default, missing, Err(not_found(missing)), None, None).err().unwrap();
    let msg = err.message();
    assert!(msg.contains("no config file at"), "names path: {msg}");
    assert!(msg.contains("[vault]") && msg.contains("OCLI_VAULT"), "hint shows example and alternatives: {msg}");
}

#[test]
fn env_override_config_missing_is_terminal_even_with_vault() {
    let missing = "/tmp/none/typo.toml";
    let err = Config::load_from(
        ConfigSource::EnvOverride,
        missing,
        Err(not_found(missing)),
        Some("/v".to_string()),
        None,
    )
    .err()
    .unwrap();
    assert!(err.message().contains("OCLI_CONFIG points to"), "names the env var: {}", err.message());
}

#[test]
fn vault_precedence_is_override_env_file() {
    let path = "/tmp/x/config.toml";
    let cfg = Config::load_from(
        ConfigSource::Default,
        path,
        Ok(file_with_root("/tmp/x")),
        None,
        Some("/env/vault".to_string()),
    )
    .ok()
    .unwrap();
    assert_eq!(cfg.vault.root, "/env/vault");

    let cfg = Config::load_from(
        ConfigSource::Default,
        path,
        Ok(file_with_root("/tmp/x")),
        Some("/cli/vault".to_string()),
        Some("/env/vault".to_string()),
    )
    .ok()
    .unwrap();
    assert_eq!(cfg.vault.root, "/cli/vault");

    let cfg = Config::load_from(ConfigSource::Default, path, Ok(file_with_root("/tmp/x")), None, None).ok().unwrap();
    assert_eq!(cfg.vault.root, "/tmp/x");
}

#[test]
fn template_table_defaults_and_overrides() {
    let cfg = valid_minimal().validate().ok().unwrap();
    assert_eq!(cfg.template.path, DEFAULT_TEMPLATE_PATH);
    assert!(cfg.template.values.is_empty());

    let mut file = valid_minimal();
    file.template.path = "custom/Feature.md".to_string();
    file.template.values.push(("Labels".to_string(), "{{DATE:YYYY}}.{{VALUE:SprintNumber}}".to_string()));
    file.template.values.push(("SprintNumber".to_string(), "2026.1".to_string()));
    let cfg = file.validate().ok().unwrap();
    assert_eq!(cfg.template.path, "custom/Feature.md");
    let get = |k: &str| cfg.template.values.iter().find(|(n, _)| n == k).map(|(_, v)| v.as_str());
    assert_eq!(get("SprintNumber"), Some("2026.1"));
    assert_eq!(get("Labels"), Some("{{DATE:YYYY}}.{{VALUE:SprintNumber}}"));
}

#[test]
fn extract_placeholders_lists_names_in_order() {
    assert_eq!(
        extract_placeholders("{FeatureType}-{TicketNumber}").unwrap(),
        vec!["FeatureType".to_string(), "TicketNumber".to_string()]
    );
    assert_eq!(extract_placeholders("plain").unwrap(), Vec::<String>::new());
    assert!(extract_placeholders("{}").is_err());
    assert!(extract_placeholders("a{b").is_err());
}

#[test]
fn sections_are_looked_up_by_key() {
    let mut file = valid_minimal();
    file.sections.entries.push((
        "progress".to_string(),
        SectionSpec { heading: "## Progress".to_string(), format: SectionFormat::Log },
    ));
    file.sections.entries.push((
        "todos".to_string(),
        SectionSpec { heading: "### Todo".to_string(), format: SectionFormat::List },
    ));
    let cfg = file.validate().ok().unwrap();
    let todos = cfg.sections.get("todos").unwrap();
    assert_eq!(todos.heading, "### Todo");
    assert_eq!(todos.format, SectionFormat::List);
    assert!(cfg.sections.get("notes").is_none());
}

#[test]
fn the_least_refused_type_key_is_reported_whatever_the_order() {
    let mut cfg = valid_minimal();
    cfg.frontmatter.types.push(("status".to_string(), FieldType::Str));
    cfg.frontmatter.types.push(("estimate".to_string(), FieldType::Int));
    cfg.frontmatter.types.push(("relates-to".to_string(), FieldType::Olink));
    match cfg.validate().err().unwrap() {
        ConfigError::IgnoreTypeCollision { field } => assert_eq!(field, "relates-to"),
        other => panic!("expected the relates-to collision, got {other:?}"),
    }
}
