use ocli::status::{parse_strict, Status};

#[test]
fn parses_canonical_display_forms() {
    assert_eq!("Backlog".parse::<Status>().unwrap(), Status::Backlog);
    assert_eq!("In Progress".parse::<Status>().unwrap(), Status::InProgress);
    assert_eq!("In Review".parse::<Status>().unwrap(), Status::InReview);
    assert_eq!("Blocked".parse::<Status>().unwrap(), Status::Blocked);
    assert_eq!("Complete".parse::<Status>().unwrap(), Status::Complete);
}

#[test]
fn aliases_canonicalize() {
    assert_eq!("done".parse::<Status>().unwrap(), Status::Complete);
    assert_eq!("in-progress".parse::<Status>().unwrap(), Status::InProgress);
}

#[test]
fn unknown_word_becomes_unknown() {
    let status: Status = "Doing".parse().unwrap();
    assert_eq!(status, Status::Unknown("Doing".to_string()));
    assert!(status.is_unknown());
    assert_eq!(status.to_text(), "Doing");
}

#[test]
fn parse_strict_accepts_canonical_rejects_unknown() {
    assert_eq!(parse_strict("In Progress").unwrap(), Status::InProgress);
    assert!(parse_strict("in progress").is_err());
    assert!(parse_strict("Doing").is_err());
}

#[test]
fn display_forms_round_trip_through_parse() {
    for s in [Status::Backlog, Status::InProgress, Status::InReview, Status::Blocked, Status::Complete] {
        assert_eq!(s.to_text().parse::<Status>().unwrap(), s);
        assert_eq!(parse_strict(&s.to_text()).unwrap(), s);
    }
    assert_eq!(" Blocked ".parse::<Status>().unwrap(), Status::Blocked);
    let err = parse_strict("in progresss").unwrap_err();
    assert_eq!(err.message(), "unknown status \"in progresss\"");
}

#[test]
fn near_miss_status_is_rejected() {
    let err = parse_strict("in progress").unwrap_err();
    assert!(err.message().contains("unknown status"), "got: {}", err.message());
}

#[test]
fn unknown_status_arg_is_rejected() {
    let err = parse_strict("in progresss").unwrap_err();
    assert!(err.message().contains("unknown status"), "got: {}", err.message());
}
