use sm_action::error::ActionError;
use sm_action::identifier::SecretId;
use sm_action::parser::parse_secret_input;
use sm_action::parser::split_mapping_line;
use sm_action::parser::DuplicateWarning;
use sm_action::parser::MappingLine;
use sm_action::parser::ParsedInput;

fn id(text: &str) -> SecretId {
    SecretId::parse(text).unwrap()
}

#[test]
fn test_parse_secret_lines() {
    let id_to_name_map = parse_secret_input(vec![
        "91ba3f10-a9a2-4795-bacf-0eee2d39a074 > ONE".to_string(),
        "bfd7aa33-54f2-487b-bbbf-4a69b49fdc0d > TWO".to_string(),
    ])
    .unwrap()
    .map;

    assert_eq!(id_to_name_map.len(), 2);
    assert_eq!(
        id_to_name_map.get(&SecretId::parse("91ba3f10-a9a2-4795-bacf-0eee2d39a074").unwrap()),
        Some(&"ONE".to_string())
    );

    assert_eq!(
        id_to_name_map.get(&SecretId::parse("bfd7aa33-54f2-487b-bbbf-4a69b49fdc0d").unwrap()),
        Some(&"TWO".to_string())
    );
}

#[test]
fn test_parse_secret_lines_two() {
    let id_to_name_map = parse_secret_input(vec![
        "91ba3f10-a9a2-4795-bacf-0eee2d39a074 > ONE".to_string(),
        "91ba3f10-a9a2-4795-bacf-0eee2d39a074 > TWO".to_string(),
    ])
    .unwrap()
    .map;

    assert_eq!(id_to_name_map.len(), 1); // one entry, since the UUID is the same

    assert_eq!(
        id_to_name_map.get(&SecretId::parse("91ba3f10-a9a2-4795-bacf-0eee2d39a074").unwrap()),
        Some(&"TWO".to_string())
    );
}

#[test]
fn test_parse_secret_lines_invalid_uuid() {
    let id_to_name_map = parse_secret_input(vec![
        "invalid-uuid > INVALID".to_string(),
        "91ba3f10-a9a2-4795-bacf-0eee2d39a074 > VALID".to_string(),
    ]);

    assert!(id_to_name_map.is_err());
}

#[test]
fn invalid_uuid_is_named_in_the_error() {
    let error = parse_secret_input(vec![
        "91ba3f10-a9a2-4795-bacf-0eee2d39a074 > VALID".to_string(),
        "  invalid-uuid  > INVALID".to_string(),
        "also-bad > LATER".to_string(),
    ])
    .unwrap_err();

    assert_eq!(
        error,
        ActionError::MalformedIdentifier {
            text: "invalid-uuid".to_string()
        }
    );
    assert_eq!(error.message(), "Invalid UUID format: invalid-uuid");
}

#[test]
fn invalid_uuid_after_valid_lines_fails_the_whole_input() {
    let result = parse_secret_input(vec![
        "91ba3f10-a9a2-4795-bacf-0eee2d39a074 > ONE".to_string(),
        "bfd7aa33-54f2-487b-bbbf-4a69b49fdc0d > TWO".to_string(),
        "91ba3f10-a9a2-4795-bacf-0eee2d39a07 > SHORT".to_string(),
    ]);

    assert!(result.is_err());
}

#[test]
fn empty_input_gives_an_empty_map() {
    let parsed = parse_secret_input(Vec::new()).unwrap();

    assert_eq!(parsed.map.len(), 0);
    assert!(parsed.map.is_empty());
    assert!(parsed.warnings.is_empty());
    assert!(parsed.map.ids().is_empty());
}

#[test]
fn empty_line_is_malformed() {
    let error = parse_secret_input(vec!["".to_string()]).unwrap_err();

    assert_eq!(
        error,
        ActionError::MalformedIdentifier {
            text: "".to_string()
        }
    );
}

#[test]
fn duplicate_identifier_raises_a_warning() {
    let parsed = parse_secret_input(vec![
        "91ba3f10-a9a2-4795-bacf-0eee2d39a074 > ONE".to_string(),
        "bfd7aa33-54f2-487b-bbbf-4a69b49fdc0d > OTHER".to_string(),
        "91BA3F10-A9A2-4795-BACF-0EEE2D39A074 > TWO".to_string(),
        "91ba3f10a9a24795bacf0eee2d39a074 > THREE".to_string(),
    ])
    .unwrap();

    let first = id("91ba3f10-a9a2-4795-bacf-0eee2d39a074");
    assert_eq!(parsed.map.len(), 2);
    assert_eq!(parsed.map.get(&first), Some(&"THREE".to_string()));
    assert_eq!(
        parsed.warnings,
        vec![
            DuplicateWarning {
                id: first,
                old_name: "ONE".to_string(),
                new_name: "TWO".to_string(),
            },
            DuplicateWarning {
                id: first,
                old_name: "TWO".to_string(),
                new_name: "THREE".to_string(),
            },
        ]
    );
    assert_eq!(
        parsed.warnings[0].message(),
        "Warning: Duplicate UUID found: 91ba3f10-a9a2-4795-bacf-0eee2d39a074. Old value: ONE, New value: TWO"
    );
}

#[test]
fn unique_identifiers_give_one_entry_each_and_no_warning() {
    let lines = vec![
        "91ba3f10-a9a2-4795-bacf-0eee2d39a074 > ONE".to_string(),
        "bfd7aa33-54f2-487b-bbbf-4a69b49fdc0d > TWO".to_string(),
        "00000000-0000-0000-0000-000000000000 > NIL".to_string(),
    ];
    let parsed = parse_secret_input(lines).unwrap();

    assert_eq!(parsed.map.len(), 3);
    assert!(parsed.warnings.is_empty());
    assert_eq!(
        parsed.map.get(&id("91ba3f10-a9a2-4795-bacf-0eee2d39a074")),
        Some(&"ONE".to_string())
    );
    assert_eq!(
        parsed.map.get(&id("bfd7aa33-54f2-487b-bbbf-4a69b49fdc0d")),
        Some(&"TWO".to_string())
    );
    assert_eq!(parsed.map.get(&SecretId { value: 0 }), Some(&"NIL".to_string()));
    assert_eq!(parsed.map.len() + parsed.warnings.len(), 3);
}

fn same_outcome(first: &ParsedInput, second: &ParsedInput) -> bool {
    let mut ids = first.map.ids();
    let mut other_ids = second.map.ids();
    ids.sort_by_key(|id| id.value);
    other_ids.sort_by_key(|id| id.value);
    ids == other_ids
        && ids.iter().all(|id| first.map.get(id) == second.map.get(id))
        && first.warnings == second.warnings
}

#[test]
fn parsing_twice_gives_the_same_outcome() {
    let lines = vec![
        "91ba3f10-a9a2-4795-bacf-0eee2d39a074 > ONE".to_string(),
        "bfd7aa33-54f2-487b-bbbf-4a69b49fdc0d > TWO".to_string(),
        "91ba3f10-a9a2-4795-bacf-0eee2d39a074 > AGAIN".to_string(),
    ];
    let first = parse_secret_input(lines.clone()).unwrap();
    let second = parse_secret_input(lines.clone()).unwrap();

    assert!(same_outcome(&first, &second));
    assert_eq!(first.map.len(), 2);

    let bad = vec!["nope > X".to_string()];
    assert_eq!(
        parse_secret_input(bad.clone()).unwrap_err(),
        parse_secret_input(bad).unwrap_err()
    );
}

#[test]
fn line_is_split_at_its_first_separator() {
    assert_eq!(
        split_mapping_line("91ba3f10-a9a2-4795-bacf-0eee2d39a074 > ONE"),
        MappingLine {
            id_text: "91ba3f10-a9a2-4795-bacf-0eee2d39a074".to_string(),
            name: "ONE".to_string(),
        }
    );
    assert_eq!(
        split_mapping_line("\t abc>def \u{3000}"),
        MappingLine {
            id_text: "abc".to_string(),
            name: "def".to_string(),
        }
    );
    assert_eq!(
        split_mapping_line("id > A > B"),
        MappingLine {
            id_text: "id".to_string(),
            name: "A > B".to_string(),
        }
    );
}

#[test]
fn line_without_separator_or_name_has_an_empty_name() {
    assert_eq!(
        split_mapping_line("  just-an-id  "),
        MappingLine {
            id_text: "just-an-id".to_string(),
            name: "".to_string(),
        }
    );
    assert_eq!(
        split_mapping_line("id >   "),
        MappingLine {
            id_text: "id".to_string(),
            name: "".to_string(),
        }
    );
    assert_eq!(
        split_mapping_line(">"),
        MappingLine {
            id_text: "".to_string(),
            name: "".to_string(),
        }
    );
    assert_eq!(
        split_mapping_line(""),
        MappingLine {
            id_text: "".to_string(),
            name: "".to_string(),
        }
    );
}

#[test]
fn omitted_name_is_accepted() {
    let parsed =
        parse_secret_input(vec!["91ba3f10-a9a2-4795-bacf-0eee2d39a074".to_string()]).unwrap();

    assert_eq!(
        parsed.map.get(&id("91ba3f10-a9a2-4795-bacf-0eee2d39a074")),
        Some(&"".to_string())
    );
}

#[test]
fn accept_takes_the_reading_of_the_identifier_as_given() {
    let mut parsed = ParsedInput::new();
    let line = |name: &str| MappingLine {
        id_text: "written".to_string(),
        name: name.to_string(),
    };

    assert_eq!(parsed.accept(Some(SecretId { value: 7 }), line("A")), Ok(()));
    assert_eq!(parsed.accept(Some(SecretId { value: 7 }), line("B")), Ok(()));
    assert_eq!(
        parsed.accept(None, line("C")),
        Err(ActionError::MalformedIdentifier {
            text: "written".to_string()
        })
    );

    assert_eq!(parsed.map.len(), 1);
    assert_eq!(parsed.map.get(&SecretId { value: 7 }), Some(&"B".to_string()));
    assert_eq!(
        parsed.warnings,
        vec![DuplicateWarning {
            id: SecretId { value: 7 },
            old_name: "A".to_string(),
            new_name: "B".to_string(),
        }]
    );
}
