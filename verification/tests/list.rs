use ocli::frontmatter::Frontmatter;
use ocli::list::{list_rows, Row};
use ocli::note::{note_matches_repo, note_matches_status, note_repo, Note};
use ocli::status::Status;

fn note(name: &str, status: Option<Status>, repo: Option<&str>, description: Option<&str>) -> Note {
    Note::new(
        name.to_string(),
        Some(Frontmatter {
            description: description.map(str::to_string),
            status,
            repo: repo.map(str::to_string),
            done: None,
        }),
        String::new(),
    )
}

fn fixture() -> Vec<Note> {
    vec![
        note(
            "BCP-74043",
            Some(Status::InProgress),
            Some("connected-module-item-api"),
            Some("Add SSO to the settings page"),
        ),
        note("NGP-1", Some(Status::Backlog), Some("[[connected-module-item-api]]"), Some("")),
        Note::new("no-fm".to_string(), None, "just prose\n".to_string()),
    ]
}

fn ids(rows: &[Row]) -> Vec<&str> {
    rows.iter().map(|r| r.id.as_str()).collect()
}

#[test]
fn all_repos_widens_past_the_repo_filter() {
    let rows = list_rows(&fixture(), &None, true, Some("connected-module-item-api"));
    assert_eq!(ids(&rows), vec!["BCP-74043", "NGP-1", "no-fm"]);
    assert_eq!(rows[0].description.as_deref(), Some("Add SSO to the settings page"));
    assert_eq!(rows[0].repo.as_deref(), Some("connected-module-item-api"));
    assert_eq!(rows[1].description.as_deref(), Some(""), "an empty description stays empty");
    assert_eq!(rows[2].status, None);
}

#[test]
fn status_filter_matches_exactly() {
    let rows = list_rows(&fixture(), &Some(Status::InProgress), true, None);
    assert_eq!(ids(&rows), vec!["BCP-74043"]);
}

#[test]
fn lists_only_the_current_repo_by_default() {
    let rows = list_rows(&fixture(), &None, false, Some("connected-module-item-api"));
    assert_eq!(ids(&rows), vec!["BCP-74043", "NGP-1"], "unattributed notes stay hidden");
}

#[test]
fn other_repos_tickets_are_hidden() {
    let rows = list_rows(&fixture(), &None, false, Some("some-other-repo"));
    assert!(rows.is_empty());
}

#[test]
fn outside_a_repository_the_whole_vault_shows() {
    let rows = list_rows(&fixture(), &None, false, None);
    assert_eq!(rows.len(), 3);
}

#[test]
fn empty_vault_yields_no_rows() {
    assert!(list_rows(&Vec::new(), &None, false, Some("x")).is_empty());
}

#[test]
fn olink_wrapped_repo_fields_match_the_current_repo() {
    let notes = fixture();
    assert_eq!(note_repo(&notes[1]), Some("connected-module-item-api"));
    assert!(note_matches_repo(&notes[1], Some("connected-module-item-api")));
    assert!(!note_matches_repo(&notes[2], Some("connected-module-item-api")));
    assert!(note_matches_repo(&notes[2], None));
    assert!(note_matches_status(&notes[0], &Some(Status::InProgress)));
    assert!(!note_matches_status(&notes[2], &Some(Status::InProgress)));
    let row = Row::new(&notes[1]);
    assert_eq!(row.repo.as_deref(), Some("connected-module-item-api"), "the bare name shows");
}

#[test]
fn rows_print_four_lines_with_dashes_for_gaps() {
    let rows = list_rows(&fixture(), &None, true, None);
    assert_eq!(
        rows[0].to_text(),
        "id: BCP-74043\ndescription: Add SSO to the settings page\nstatus: In Progress\nrepository: connected-module-item-api\n"
    );
    assert_eq!(rows[2].to_text(), "id: no-fm\ndescription: -\nstatus: -\nrepository: -\n");
}
