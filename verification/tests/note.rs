use ocli::frontmatter::Frontmatter;
use ocli::note::{frontmatter_yaml, note_name_of, Note};
use ocli::status::Status;
use ocli::vault::{IoFailure, IoKind, VaultError};

/// Reads the consumed fields with yaml_serde's generic value.
fn read_yaml(yaml: &str) -> Result<Frontmatter, VaultError> {
    let value: yaml_serde::Value = yaml_serde::from_str(yaml)
        .map_err(|e| VaultError::CouldNotDeserializeFrontmatter { error: e.to_string() })?;
    let get = |k: &str| value.get(k).cloned().unwrap_or(yaml_serde::Value::Null);
    let text = |k: &str| -> Result<Option<String>, VaultError> {
        match get(k) {
            yaml_serde::Value::Null => Ok(None),
            yaml_serde::Value::String(s) => Ok(Some(s)),
            yaml_serde::Value::Number(n) => Ok(Some(n.to_string())),
            _ => Err(VaultError::CouldNotDeserializeFrontmatter { error: format!("{k}: not a string") }),
        }
    };
    let done = match get("done") {
        yaml_serde::Value::Null => None,
        yaml_serde::Value::Bool(b) => Some(b),
        _ => return Err(VaultError::CouldNotDeserializeFrontmatter { error: "done: not a bool".to_string() }),
    };
    Ok(Frontmatter {
        description: text("description")?,
        status: text("status")?.map(|s| s.parse::<Status>().unwrap()),
        repo: text("repo")?,
        done,
    })
}

fn load(name: &str, contents: &str) -> Result<Note, VaultError> {
    let file_name = format!("{name}.md");
    Note::load(&format!("/v/{file_name}"), Some(&file_name), Ok(contents.to_string()), &read_yaml)
}

#[test]
fn lf_note_loads_name_and_frontmatter() {
    let note = load("BCP-74043", "---\nstatus: In Progress\ndone: false\n---\n\nbody\n").unwrap();
    assert_eq!(note.name(), "BCP-74043");
    let fm = note.frontmatter().unwrap();
    assert_eq!(fm.status, Some(Status::InProgress));
    assert_eq!(fm.done, Some(false));
}

#[test]
fn crlf_note_parses_frontmatter() {
    let note = load("BCP-74044", "---\r\nstatus: In Review\r\n---\r\nbody\r\n").unwrap();
    assert_eq!(note.frontmatter().unwrap().status, Some(Status::InReview));
}

#[test]
fn unterminated_closing_delimiter() {
    let note = load("X-1", "---\nstatus: Complete\n---").unwrap();
    assert_eq!(note.frontmatter().unwrap().status, Some(Status::Complete));
}

#[test]
fn empty_frontmatter_block_is_some_all_none() {
    let note = load("X-2", "---\n---\nbody\n").unwrap();
    let fm = note.frontmatter().unwrap();
    assert_eq!(fm.status, None);
    assert_eq!(fm.done, None);
}

#[test]
fn no_frontmatter_block_is_none() {
    let note = load("X-3", "just prose\n").unwrap();
    assert!(note.frontmatter().is_none());
    assert_eq!(note.text(), "just prose\n");
}

#[test]
fn note_missing_note_names_the_path() {
    let err = Note::load(
        "/v/BCP-99999.md",
        Some("BCP-99999.md"),
        Err(IoFailure { kind: IoKind::NotFound, message: "No such file".to_string() }),
        &read_yaml,
    )
    .unwrap_err();
    let msg = err.message();
    assert!(msg.contains("could not find note at"), "got: {msg}");
    assert!(msg.contains("BCP-99999.md"), "got: {msg}");
}

#[test]
fn note_wrong_typed_field_errors_naming_the_field() {
    let err = load("X-4", "---\nstatus: [a, b]\n---\n").unwrap_err();
    match err {
        VaultError::CouldNotDeserializeFrontmatter { error } => assert!(error.contains("status"), "got: {error}"),
        other => panic!("got: {other:?}"),
    }
}

#[test]
fn frontmatter_yaml_is_the_inner_text() {
    assert_eq!(frontmatter_yaml("---\na: 1\n---\nbody\n"), Some("a: 1\n"));
    assert_eq!(frontmatter_yaml("---\r\na: 1\r\n---\r\n"), Some("a: 1\r\n"));
    assert_eq!(frontmatter_yaml("prose\n---\n"), None);
}

#[test]
fn note_name_is_the_file_stem() {
    assert_eq!(note_name_of(Some("BCP-74043.md"), "/v/BCP-74043.md"), "BCP-74043");
    assert_eq!(note_name_of(Some("a.b.md"), "/v/a.b.md"), "a.b");
    assert_eq!(note_name_of(Some(".hidden"), "/v/.hidden"), ".hidden");
    assert_eq!(note_name_of(Some("README"), "/v/README"), "README");
    assert_eq!(note_name_of(None, "/"), "/");
}
