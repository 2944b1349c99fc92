use circles::tags::{Tag, TagErrorKind, TagReport, TagsMap};

fn construct_tag_report(antenna_id: u16, peak_rssi: i8) -> TagReport {
    TagReport {
        epc: vec![0, 0, 0, 0, 0, 0, 0, 0, 0, 0, 0, 0],
        antenna_id: Some(antenna_id),
        peak_rssi: Some(peak_rssi),
    }
}

fn tag(id: &str, antenna: u16, strength: i8) -> Tag {
    Tag {
        id: String::from(id),
        antenna,
        strength,
    }
}

#[test]
fn should_create_tag_from_line() {
    let tag_report = construct_tag_report(1, -30);
    let result = Tag::from_report_data(tag_report);

    assert!(result.is_ok());
    let tag = result.unwrap();

    assert_eq!("000000000000000000000000", tag.id);
    assert_eq!(-30, tag.strength);
    assert_eq!(1, tag.antenna);
}

#[test]
fn should_err_if_antenna_is_unexpected_value() {
    let result = Tag::build("abc123".into(), 0, -31);

    assert!(result.is_err_and(|x| x.kind == TagErrorKind::IncorrectAntenna));

    let result = Tag::build("abc123".into(), 4, -31);

    assert!(result.is_err_and(|x| x.kind == TagErrorKind::IncorrectAntenna));
}

#[test]
fn should_err_if_strength_is_out_of_bounds() {
    let result = Tag::build("abc123".into(), 1, 1);

    assert!(result.is_err_and(|x| x.kind == TagErrorKind::IncorrectStrength));

    let result = Tag::build("abc123".into(), 1, -81);

    assert!(result.is_err_and(|x| x.kind == TagErrorKind::IncorrectStrength));
}

#[test]
fn should_create_map_from_vector() {
    let tag = Tag {
        id: String::from("abc123"),
        antenna: 1,
        strength: -30,
    };
    let mut tags = vec![tag];

    let map = TagsMap::from(tags.drain(..).collect());

    assert_eq!(1, map.len());
    assert_eq!(map.contains_key("abc123"), true);
    assert_eq!(map.get("abc123").unwrap().antenna, 1);
}

#[test]
fn should_keep_strongest_of_two_tokens() {
    let tag1 = Tag {
        id: String::from("abc123"),
        antenna: 2,
        strength: -35,
    };
    let tag2 = Tag {
        id: String::from("abc123"),
        antenna: 1,
        strength: -30,
    };
    let tag3 = Tag {
        id: String::from("abc123"),
        antenna: 1,
        strength: -65,
    };
    let mut tags = vec![tag1, tag2, tag3];

    let map = TagsMap::from(tags.drain(..).collect());

    assert_eq!(1, map.len());
    assert_eq!(map.contains_key("abc123"), true);
    assert_eq!(map.get("abc123").unwrap().antenna, 1);
    assert_eq!(map.get("abc123").unwrap().strength, -30);
}

#[test]
fn build_accepts_the_edges_of_the_ranges() {
    let t = Tag::build("x".into(), 1, -80).unwrap();
    assert_eq!((t.id.as_str(), t.antenna, t.strength), ("x", 1, -80));
    let t = Tag::build("y".into(), 3, 0).unwrap();
    assert_eq!((t.id.as_str(), t.antenna, t.strength), ("y", 3, 0));
}

#[test]
fn build_checks_the_antenna_before_the_strength() {
    let err = Tag::build("x".into(), 9, 5).unwrap_err();
    assert!(err.kind == TagErrorKind::IncorrectAntenna);
    assert_eq!(err.value(), "9");
}

#[test]
fn tag_error_messages_name_the_value_and_the_range() {
    let err = Tag::build("x".into(), 4, -31).unwrap_err();
    assert_eq!(
        err.to_string(),
        "Line did not have a correct antenna, value should be between 1 and 3, but was 4."
    );
    let err = Tag::build("x".into(), 1, -81).unwrap_err();
    assert_eq!(err.value(), "-81");
    assert_eq!(
        err.to_string(),
        "Line did not have a correct strength, value should be between -80 and 0, but was -81."
    );
}

#[test]
fn report_ids_are_upper_case_hexadecimal() {
    let report = TagReport {
        epc: vec![0xE2, 0x00, 0x47, 0x02, 0x0a, 0xff],
        antenna_id: Some(2),
        peak_rssi: Some(-50),
    };
    let t = Tag::from_report_data(report).unwrap();
    assert_eq!(t.id, "E20047020AFF");
}

#[test]
fn report_with_a_bad_antenna_is_refused() {
    let err = Tag::from_report_data(construct_tag_report(10, -40)).unwrap_err();
    assert!(err.kind == TagErrorKind::IncorrectAntenna);
    assert_eq!(err.value(), "10");
}

#[test]
fn equal_strengths_keep_the_first_reading() {
    let map = TagsMap::from(vec![tag("a", 1, -40), tag("a", 2, -40), tag("b", 3, -10)]);
    assert_eq!(map.len(), 2);
    assert_eq!(map.get("a").unwrap().antenna, 1);
    assert_eq!(map.get("b").unwrap().antenna, 3);
    assert!(map.get("c").is_none());
}

#[test]
fn empty_list_gives_empty_map() {
    let map = TagsMap::from(Vec::new());
    assert_eq!(map.len(), 0);
    assert!(!map.contains_key("abc123"));
    assert_eq!(map.values().len(), 0);
}

#[test]
fn merging_batches_keeps_the_same_readings_as_one_fold() {
    let first = vec![tag("a", 1, -50), tag("b", 2, -20), tag("a", 3, -30)];
    let second = vec![tag("a", 2, -30), tag("c", 1, -70), tag("b", 1, -10)];
    let mut all = first.clone();
    all.extend(second.clone());
    let merged = TagsMap::from_maps(&vec![TagsMap::from(first), TagsMap::from(second)]);
    let once = TagsMap::from(all);
    assert_eq!(merged.len(), once.len());
    for id in ["a", "b", "c"] {
        let x = merged.get(id).unwrap();
        let y = once.get(id).unwrap();
        assert_eq!((x.antenna, x.strength), (y.antenna, y.strength));
    }
    assert_eq!(merged.get("a").unwrap().antenna, 3);
    assert_eq!(merged.get("b").unwrap().strength, -10);
}

#[test]
fn adding_tags_in_steps_matches_adding_them_at_once() {
    let mut running = TagsMap::from(vec![tag("a", 1, -60)]);
    running.add_tags(vec![tag("a", 2, -40), tag("b", 3, -70)]);
    running.add_tags(vec![tag("b", 1, -70), tag("a", 3, -41)]);
    assert_eq!(running.len(), 2);
    assert_eq!(running.get("a").unwrap().antenna, 2);
    assert_eq!(running.get("b").unwrap().antenna, 3);
}

#[test]
fn folding_a_map_again_changes_nothing() {
    let map = TagsMap::from(vec![tag("a", 1, -60), tag("b", 2, -10), tag("a", 3, -5)]);
    let again = TagsMap::from(map.values().to_vec());
    assert_eq!(again.len(), map.len());
    for t in map.values() {
        let u = again.get(&t.id).unwrap();
        assert_eq!((u.antenna, u.strength), (t.antenna, t.strength));
    }
}

#[test]
fn random_tags_pass_validation() {
    let ids = [
        "abc123", "abc456", "abc789", "def123", "def456", "def789", "ghi123", "ghi456", "ghi789",
    ];
    for _ in 0..200 {
        let t = Tag::random();
        assert!(ids.contains(&t.id.as_str()));
        assert!((1..=3).contains(&t.antenna));
        assert!((-80..0).contains(&t.strength));
        assert!(Tag::build(t.id.clone(), t.antenna, t.strength).is_ok());
    }
}

#[test]
fn random_map_holds_one_reading_or_none() {
    assert_eq!(TagsMap::random(0).len(), 0);
    let map = TagsMap::random(10);
    assert_eq!(map.len(), 1);
    let t = &map.values()[0];
    assert!(Tag::build(t.id.clone(), t.antenna, t.strength).is_ok());
}
