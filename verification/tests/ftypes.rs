use ocli::ftypes::{render_field, Field, FieldType};

/// The float reader the command line uses: a finite `f32`, written with
/// a decimal point.
fn read_float(s: &str) -> Option<String> {
    let value: f32 = s.parse().ok()?;
    if !value.is_finite() {
        return None;
    }
    let rendered = value.to_string();
    Some(if rendered.contains('.') { rendered } else { format!("{rendered}.0") })
}

fn parse(ty: &FieldType, raw: &str) -> Result<Field, ocli::ftypes::FieldError> {
    Field::parse(ty, raw, &read_float)
}

#[test]
fn render_field_wraps_olinks() {
    assert_eq!(render_field("repo", &Field::Olink("repo-name".into()), "\n"), "repo: \"[[repo-name]]\"");
    assert_eq!(
        render_field("repo", &Field::Olink("[[path/Ada|Ada]]".into()), "\n"),
        "repo: \"[[path/Ada|Ada]]\""
    );
}

#[test]
fn render_field_escapes_backslash_then_quote() {
    assert_eq!(render_field("x", &Field::Str("a\"b\\c".into()), "\n"), "x: \"a\\\"b\\\\c\"");
}

#[test]
fn render_field_list_is_block_style() {
    assert_eq!(
        render_field("tags", &Field::List(vec![Field::Str("a".into()), Field::Str("b c".into())]), "\n"),
        "tags:\n  - \"a\"\n  - \"b c\""
    );
    assert_eq!(render_field("tags", &Field::List(vec![]), "\n"), "tags: []");
}

#[test]
fn display_is_human_not_yaml() {
    assert_eq!(Field::Str("a b".into()).to_text(), "a b");
    assert_eq!(Field::Bool(true).to_text(), "true");
    assert_eq!(Field::List(vec![Field::Str("a".into()), Field::Str("b".into())]).to_text(), "a, b");
}

#[test]
fn parse_coerces_scalars_and_lists() {
    assert_eq!(parse(&FieldType::Str, "hello").unwrap(), Field::Str("hello".into()));
    assert_eq!(parse(&FieldType::Int, "5").unwrap(), Field::Int(5));
    assert_eq!(parse(&FieldType::Bool, "true").unwrap(), Field::Bool(true));
    assert_eq!(
        parse(&FieldType::List(Box::new(FieldType::Str)), "this, is, a, tag").unwrap(),
        Field::List(vec![
            Field::Str("this".into()),
            Field::Str("is".into()),
            Field::Str("a".into()),
            Field::Str("tag".into())
        ])
    );
    assert_eq!(
        parse(&FieldType::List(Box::new(FieldType::Int)), "1, 2").unwrap(),
        Field::List(vec![Field::Int(1), Field::Int(2)])
    );
}

#[test]
fn parse_rejects_bad_values() {
    let err = parse(&FieldType::Int, "abc").unwrap_err();
    assert!(err.message().contains("not a valid int"), "got: {}", err.message());
    assert!(parse(&FieldType::Bool, "yes").is_err());
    assert!(parse(&FieldType::Float, "inf").is_err());
    assert!(parse(&FieldType::List(Box::new(FieldType::Int)), "1, x").is_err());
}

#[test]
fn parse_drops_empty_list_elements() {
    assert_eq!(
        parse(&FieldType::List(Box::new(FieldType::Str)), "a,,b,").unwrap(),
        Field::List(vec![Field::Str("a".into()), Field::Str("b".into())])
    );
    assert_eq!(parse(&FieldType::List(Box::new(FieldType::Str)), "").unwrap(), Field::List(vec![]));
}

#[test]
fn parse_refuses_nested_lists() {
    let nested = FieldType::List(Box::new(FieldType::List(Box::new(FieldType::Int))));
    let err = parse(&nested, "1, 2").unwrap_err();
    assert!(err.message().contains("nested lists"), "got: {}", err.message());
}

#[test]
fn float_keeps_decimal_point() {
    assert_eq!(parse(&FieldType::Float, "5").unwrap().to_text(), "5.0");
    assert_eq!(parse(&FieldType::Float, "5.5").unwrap().to_text(), "5.5");
    assert_eq!(render_field("estimate", &parse(&FieldType::Float, "5.0").unwrap(), "\n"), "estimate: 5.0");
}

#[test]
fn field_types_parse_from_config_words() {
    assert_eq!("string".parse::<FieldType>().unwrap(), FieldType::Str);
    assert_eq!("olink".parse::<FieldType>().unwrap(), FieldType::Olink);
    assert_eq!("list<int>".parse::<FieldType>().unwrap(), FieldType::List(Box::new(FieldType::Int)));
    assert_eq!(
        "list<list<float>>".parse::<FieldType>().unwrap(),
        FieldType::List(Box::new(FieldType::List(Box::new(FieldType::Float))))
    );

    let err = "wat".parse::<FieldType>().unwrap_err();
    assert!(err.message().contains("not a valid field type"));
}

#[test]
fn int_parsing_follows_rust() {
    assert_eq!(parse(&FieldType::Int, "-2147483648").unwrap(), Field::Int(i32::MIN));
    assert_eq!(parse(&FieldType::Int, "+2147483647").unwrap(), Field::Int(i32::MAX));
    assert!(parse(&FieldType::Int, "2147483648").is_err());
    assert!(parse(&FieldType::Int, "-").is_err());
    assert!(parse(&FieldType::Int, " 1").is_err());
    assert!(parse(&FieldType::Int, "").is_err());
    assert_eq!(parse(&FieldType::Int, "007").unwrap(), Field::Int(7));
    let err = parse(&FieldType::Bool, "True").unwrap_err();
    assert_eq!(err.message(), "\"True\" is not a valid bool value");
}

#[test]
fn list_items_are_trimmed_and_coerced_in_order() {
    assert_eq!(
        parse(&FieldType::List(Box::new(FieldType::Olink)), " a , [[b]] ").unwrap(),
        Field::List(vec![Field::Olink("a".into()), Field::Olink("[[b]]".into())])
    );
    let err = parse(&FieldType::List(Box::new(FieldType::Float)), "1.5, nope, 2").unwrap_err();
    assert_eq!(err.message(), "\"nope\" is not a valid float value");
    assert_eq!(
        parse(&FieldType::List(Box::new(FieldType::Float)), "1, 2.25").unwrap().to_text(),
        "1.0, 2.25"
    );
}

#[test]
fn human_form_reads_back() {
    let values = [
        (FieldType::Int, Field::Int(-2147483648)),
        (FieldType::Int, Field::Int(907)),
        (FieldType::Bool, Field::Bool(false)),
        (FieldType::Str, Field::Str(" a, b ".into())),
        (FieldType::Olink, Field::Olink("[[x|y]]".into())),
        (
            FieldType::List(Box::new(FieldType::Int)),
            Field::List(vec![Field::Int(3), Field::Int(-1), Field::Int(0)]),
        ),
        (
            FieldType::List(Box::new(FieldType::Str)),
            Field::List(vec![Field::Str("x y".into()), Field::Str("z".into())]),
        ),
        (FieldType::List(Box::new(FieldType::Bool)), Field::List(vec![])),
    ];
    for (ty, value) in values {
        assert_eq!(parse(&ty, &value.to_text()).unwrap(), value);
    }
}
