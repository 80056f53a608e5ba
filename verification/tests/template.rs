use ocli::template::{house_format, substitute, Source, Timestamp, ValueMap, FeatureTemplate, DATE_FORMAT};
use ocli::vault::{IoFailure, IoKind, VaultError};

/// A copy of the real QuickAdd Feature template.
const FIXTURE_TEMPLATE: &str = r#"---
Created: "{{DATE:YYYY-MM-DD HH:mm}}"
aliases:
  - "{{VALUE:FeatureType}}-{{VALUE:TicketNumber}}"
type: "{{VALUE:FeatureType}}"
description:
owner:
epic:
relates-to:
blocked-by:
sprint:
repo:
jira: https://bddevops.atlassian.net/browse/{{VALUE:FeatureType}}-{{VALUE:TicketNumber}}
pr:
estimate:
status:
done: false
tags:
  - feature
  - codewaves
---
 Owner: `INPUT[suggester(optionQuery("notes/people")):owner]` |  Ticket Type: `INPUT[inlineSelect(option(BCP), option(NGP), option(Ticket), option(Epic)):type]` |  Estimate: `INPUT[inlineSelect(option(1), option(2), option(3), option(5), option(8)):estimate]` 
 Done: `INPUT[toggle:done]` 
 
 ---
# Description

# Acceptance Criteria

# Dev Notes

## Progress
## Notes
## Descisions

## Open Questions

<!-- ocli:footer -->
--- 

# Relates to 
```meta-bind
INPUT[listSuggester(optionQuery("notes")):relates-to]
```

# Blocked by 
```meta-bind
INPUT[listSuggester(optionQuery("notes")):blocked-by]
```
"#;

fn fixed_now() -> Timestamp {
    Timestamp { year: 2026, month: 9, day: 12, hour: 10, minute: 30 }
}

fn branch_values() -> ValueMap {
    let mut values = ValueMap::new();
    values.insert(Source::Branch, "FeatureType", "BCP");
    values.insert(Source::Branch, "TicketNumber", "14392");
    values
}

#[test]
fn house_format_is_padded_local_time() {
    assert_eq!(house_format(&fixed_now()), "2026-09-12 10:30");
}

#[test]
fn renders_the_real_template_byte_exactly() {
    let expected = FIXTURE_TEMPLATE
        .replace("{{DATE:YYYY-MM-DD HH:mm}}", "2026-09-12 10:30")
        .replace("{{VALUE:FeatureType}}", "BCP")
        .replace("{{VALUE:TicketNumber}}", "14392");

    let out = substitute(FIXTURE_TEMPLATE, &branch_values(), &fixed_now()).unwrap();

    assert_eq!(out, expected);
    assert!(!out.contains("{{"), "no placeholder survives");
    assert!(
        out.contains("## Descisions"),
        "the user's typo survives untouched — it is theirs to fix"
    );
}

#[test]
fn date_argument_is_exact_matched() {
    let text = "Created: \"{{DATE:YYYY-MM-DD}}\"\n";

    let err = substitute(text, &ValueMap::new(), &fixed_now()).unwrap_err();
    let message = err.message();
    assert!(message.contains("YYYY-MM-DD}}"), "names the unsupported argument: {message}");
    assert!(message.contains("YYYY-MM-DD HH:mm"), "names the supported format: {message}");
    assert!(message.contains("line 1"), "names the line: {message}");
}

#[test]
fn unknown_construct_errors_naming_the_line() {
    let text = "---\nstatus:\n---\ncreated at {{TIME:HH:mm}}\n";

    let err = substitute(text, &ValueMap::new(), &fixed_now()).unwrap_err();
    let message = err.message();
    assert!(message.contains("TIME:HH:mm"), "names it: {message}");
    assert!(message.contains("line 4"), "names the line: {message}");
}

#[test]
fn unterminated_open_errors_showing_the_rest() {
    let text = "a\nb\n{{oops no close\n";

    let err = substitute(text, &ValueMap::new(), &fixed_now()).unwrap_err();
    let message = err.message();
    assert!(message.contains("oops no close"), "shows it: {message}");
    assert!(message.contains("line 3"), "names the line: {message}");
}

#[test]
fn value_without_a_layer_entry_errors_naming_it() {
    let text = "epic: \"{{VALUE:Epic}}\"\n";

    let err = substitute(text, &branch_values(), &fixed_now()).unwrap_err();
    let message = err.message();
    assert!(message.contains("Epic"), "names the placeholder: {message}");
    assert!(message.contains("line 1"), "names the line: {message}");
}

#[test]
fn adjacent_placeholders_on_one_line_both_resolve() {
    let text = "aliases:\n  - \"{{VALUE:FeatureType}}-{{VALUE:TicketNumber}}\"\n";

    let out = substitute(text, &branch_values(), &fixed_now()).unwrap();

    assert_eq!(out, "aliases:\n  - \"BCP-14392\"\n");
}

#[test]
fn value_map_layers_merge_by_precedence() {
    let mut values = ValueMap::new();
    values.insert(Source::Template, "FeatureType", "Ticket");
    values.insert(Source::Branch, "FeatureType", "BCP");
    assert_eq!(values.get("FeatureType"), Some("BCP"));
    assert_eq!(values.source_of("FeatureType"), Some(Source::Branch));

    values.insert(Source::Key, "FeatureType", "NGP");
    assert_eq!(values.source_of("FeatureType"), Some(Source::Key));

    values.insert(Source::SetArg, "FeatureType", "XX");
    assert_eq!(values.get("FeatureType"), Some("XX"));
    assert_eq!(values.source_of("FeatureType"), Some(Source::SetArg));
}

#[test]
fn insert_all_applies_pairs_in_order() {
    let mut values = ValueMap::new();
    values.insert(Source::Template, "Sprint", "1");
    values.insert_all(
        Source::Branch,
        &vec![
            ("Sprint".to_string(), "2".to_string()),
            ("Epic".to_string(), "golden".to_string()),
            ("Sprint".to_string(), "3".to_string()),
        ],
    );
    assert_eq!(values.get("Sprint"), Some("3"));
    assert_eq!(values.source_of("Sprint"), Some(Source::Branch));
    assert_eq!(values.get("Epic"), Some("golden"));
    assert_eq!(values.get("Missing"), None);
    assert_eq!(values.source_of("Missing"), None);
}

#[test]
fn house_format_pads_every_part_and_negative_years() {
    let early = Timestamp { year: 7, month: 1, day: 2, hour: 3, minute: 4 };
    assert_eq!(house_format(&early), "0007-01-02 03:04");
    let bc = Timestamp { year: -5, month: 12, day: 31, hour: 23, minute: 59 };
    assert_eq!(house_format(&bc), "-005-12-31 23:59");
    let far = Timestamp { year: 12345, month: 10, day: 10, hour: 10, minute: 10 };
    assert_eq!(house_format(&far), "12345-10-10 10:10");
}

#[test]
fn text_without_placeholders_renders_verbatim() {
    let text = "---\nstatus: x\n---\nbody { single } braces }}\n";
    assert_eq!(substitute(text, &ValueMap::new(), &fixed_now()).unwrap(), text);
}

#[test]
fn empty_value_name_is_a_construct_error() {
    let err = substitute("a {{VALUE:}} b", &ValueMap::new(), &fixed_now()).unwrap_err();
    assert!(matches!(err, VaultError::UnsupportedConstruct { ref construct, line: 1 } if construct == "VALUE:"));
}

#[test]
fn construct_errors_win_over_missing_values() {
    let err = substitute("{{VALUE:Nope}}\n{{DATE:YYYY}}\n", &ValueMap::new(), &fixed_now()).unwrap_err();
    assert!(matches!(err, VaultError::UnsupportedDateFormat { ref arg, line: 2 } if arg == "YYYY"));
}

#[test]
fn date_placeholder_uses_the_house_format() {
    let text = format!("at {{{{DATE:{}}}}}", DATE_FORMAT);
    assert_eq!(substitute(&text, &ValueMap::new(), &fixed_now()).unwrap(), "at 2026-09-12 10:30");
}

#[test]
fn template_load_distinguishes_missing_from_other_failures() {
    let ok = FeatureTemplate::load("t/Feature.md", Ok("x {{VALUE:A}}".to_string())).unwrap();
    assert_eq!(ok.path(), "t/Feature.md");
    let mut values = ValueMap::new();
    values.insert(Source::SetArg, "A", "1");
    assert_eq!(ok.render(&values, &fixed_now()).unwrap(), "x 1");

    let missing = FeatureTemplate::load(
        "t/Feature.md",
        Err(IoFailure { kind: IoKind::NotFound, message: "gone".to_string() }),
    );
    let err = missing.err().unwrap();
    assert_eq!(err.message(), "could not find template at t/Feature.md");
    let other = FeatureTemplate::load(
        "t/Feature.md",
        Err(IoFailure { kind: IoKind::Other, message: "denied".to_string() }),
    );
    assert!(matches!(other.err().unwrap(), VaultError::IoError { .. }));
}

#[test]
fn template_values_read_the_same_in_any_order() {
    let a = vec![("A".to_string(), "1".to_string()), ("B".to_string(), "2".to_string())];
    let b = vec![("B".to_string(), "2".to_string()), ("A".to_string(), "1".to_string())];
    let mut first = ValueMap::new();
    first.insert_all(Source::Template, &a);
    let mut second = ValueMap::new();
    second.insert_all(Source::Template, &b);
    for key in ["A", "B", "C"] {
        assert_eq!(first.get(key), second.get(key));
    }
}
