use circles::database::answer_records;
use circles::export::{batch_offset, export_headers, get_token_type_from_key, tokens, BATCH_SIZE};
use circles::tags::{Tag, TagsMap};

/// An excerpt of the installation's token list.
const TOKEN_LIST: &str = r#"{
    "E2004702E4E16828021E62FE": "bl_bl",
    "E2004702E4E16828021E62FF": "bl_gr"
}"#;

#[test]
fn can_parse_token_list() {
    // The installation's token list parses.
    tokens(TOKEN_LIST).unwrap();
}

#[test]
fn should_find_token_from_key() {
    let value = get_token_type_from_key(&tokens(TOKEN_LIST).unwrap(), "E2004702E4E16828021E62FE");

    assert_eq!(value, "bl_bl");
}

#[test]
fn unknown_tokens_keep_their_key() {
    let list = tokens(TOKEN_LIST).unwrap();
    assert_eq!(get_token_type_from_key(&list, "abc123"), "abc123");
    assert_eq!(get_token_type_from_key(&list, "E2004702E4E16828021E62FF"), "bl_gr");
}

#[test]
fn token_list_must_be_an_object_of_strings() {
    assert!(tokens("not json").is_none());
    assert!(tokens(r#"{"a": 1}"#).is_none());
    assert_eq!(tokens("{}").unwrap().len(), 0);
    let list = tokens(r#"{"b": "2", "a": "1"}"#).unwrap();
    assert_eq!(list, vec![("a".to_string(), "1".to_string()), ("b".to_string(), "2".to_string())]);
}

#[test]
fn export_pages_cover_the_answers() {
    assert_eq!(batch_offset(0, 0), None);
    assert_eq!(batch_offset(0, 1), Some(0));
    assert_eq!(batch_offset(1, 10000), None);
    assert_eq!(batch_offset(1, 10001), Some(BATCH_SIZE));
    assert_eq!(batch_offset(2, 25000), Some(20000));
}

#[test]
fn export_header_row() {
    assert_eq!(
        export_headers(),
        vec![
            "Project key",
            "Session ID",
            "Theme key",
            "Question key",
            "Timestamp (UTC)",
            "RFID Token",
            "Token Identifier",
            "Option"
        ]
    );
}

#[test]
fn answers_record_the_antenna_as_option() {
    let map = TagsMap::from(vec![
        Tag { id: "abc123".to_string(), antenna: 2, strength: -30 },
        Tag { id: "def456".to_string(), antenna: 3, strength: -40 },
    ]);
    let records = answer_records(5, &map);
    assert_eq!(records.len(), 2);
    for (r, t) in records.iter().zip(map.values()) {
        assert_eq!(r.step_id, 5);
        assert_eq!(r.option_key, t.antenna.to_string());
        assert_eq!(r.token_key, t.id);
    }
}
