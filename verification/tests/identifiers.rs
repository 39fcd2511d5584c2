use sm_action::identifier::SecretId;
use sm_action::mapping::IdentifierMap;

#[test]
fn identifier_is_read_by_its_value() {
    assert_eq!(
        SecretId::parse("a1a2a3a4-b1b2-c1c2-d1d2-d3d4d5d6d7d8"),
        Some(SecretId {
            value: 0xa1a2a3a4b1b2c1c2d1d2d3d4d5d6d7d8
        })
    );
    assert_eq!(
        SecretId::parse("00000000-0000-0000-0000-000000000001"),
        Some(SecretId { value: 1 })
    );
}

#[test]
fn identifier_is_read_in_every_form_and_letter_case() {
    let expected = Some(SecretId {
        value: 0x91ba3f10a9a24795bacf0eee2d39a074,
    });

    assert_eq!(SecretId::parse("91ba3f10-a9a2-4795-bacf-0eee2d39a074"), expected);
    assert_eq!(SecretId::parse("91BA3F10-A9A2-4795-BACF-0EEE2D39A074"), expected);
    assert_eq!(SecretId::parse("91ba3f10a9a24795bacf0eee2d39a074"), expected);
    assert_eq!(SecretId::parse("{91ba3f10-a9a2-4795-bacf-0eee2d39a074}"), expected);
    assert_eq!(
        SecretId::parse("urn:uuid:91ba3f10-a9a2-4795-bacf-0eee2d39a074"),
        expected
    );
}

#[test]
fn text_that_is_no_uuid_is_not_read() {
    assert_eq!(SecretId::parse("invalid-uuid"), None);
    assert_eq!(SecretId::parse(""), None);
    assert_eq!(SecretId::parse(" 91ba3f10-a9a2-4795-bacf-0eee2d39a074"), None);
    assert_eq!(SecretId::parse("91ba3f10-a9a2-4795-bacf-0eee2d39a07g"), None);
    assert_eq!(SecretId::parse("91ba3f10-a9a2-4795-bacf-0eee2d39a0744"), None);
    assert_eq!(SecretId::parse("91ba3f10a-9a2-4795-bacf-0eee2d39a074"), None);
}

#[test]
fn identifier_is_written_hyphenated_in_lower_case() {
    assert_eq!(
        SecretId {
            value: 0xa1a2a3a4b1b2c1c2d1d2d3d4d5d6d7d8
        }
        .to_text(),
        "a1a2a3a4-b1b2-c1c2-d1d2-d3d4d5d6d7d8"
    );
    assert_eq!(
        SecretId { value: 0 }.to_text(),
        "00000000-0000-0000-0000-000000000000"
    );
    assert_eq!(
        SecretId { value: u128::MAX }.to_text(),
        "ffffffff-ffff-ffff-ffff-ffffffffffff"
    );
    assert_eq!(
        SecretId {
            value: 0x0123456789abcdef0123456789abcdef
        }
        .to_text(),
        "01234567-89ab-cdef-0123-456789abcdef"
    );
    assert_eq!(
        SecretId::parse("91BA3F10A9A24795BACF0EEE2D39A074")
            .unwrap()
            .to_text(),
        "91ba3f10-a9a2-4795-bacf-0eee2d39a074"
    );
}

#[test]
fn written_identifier_is_read_back() {
    for value in [0u128, 1, 0xa1a2a3a4b1b2c1c2d1d2d3d4d5d6d7d8, u128::MAX] {
        let id = SecretId { value };
        assert_eq!(SecretId::parse(&id.to_text()), Some(id));
    }
}

#[test]
fn map_keeps_the_name_given_last() {
    let mut map = IdentifierMap::new();
    let a = SecretId { value: 1 };
    let b = SecretId { value: 2 };

    assert!(map.is_empty());
    assert_eq!(map.insert(a, "first".to_string()), None);
    assert_eq!(map.insert(b, "other".to_string()), None);
    assert_eq!(map.insert(a, "second".to_string()), Some("first".to_string()));

    assert_eq!(map.len(), 2);
    assert!(!map.is_empty());
    assert_eq!(map.get(&a), Some(&"second".to_string()));
    assert_eq!(map.get(&b), Some(&"other".to_string()));
    assert_eq!(map.get(&SecretId { value: 3 }), None);
    assert!(map.contains(&a));
    assert!(!map.contains(&SecretId { value: 3 }));
}

#[test]
fn map_lists_each_identifier_once() {
    let mut map = IdentifierMap::new();
    map.insert(SecretId { value: 5 }, "five".to_string());
    map.insert(SecretId { value: 9 }, "nine".to_string());
    map.insert(SecretId { value: 5 }, "again".to_string());

    let mut ids = map.ids();
    ids.sort_by_key(|id| id.value);

    assert_eq!(ids, vec![SecretId { value: 5 }, SecretId { value: 9 }]);
}
