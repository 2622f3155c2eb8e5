use tes3edit::{create_from_tag, get_all_tags, get_unique_id, ERecordType, Record, RecordBody};

fn s(x: &str) -> String {
    x.to_string()
}

#[test]
fn all_tags_are_listed_once() {
    let tags = get_all_tags();
    assert_eq!(tags.len(), 43);
    assert_eq!(tags[0], "TES3");
    assert_eq!(tags[1], "GMST");
    assert_eq!(tags[42], "INFO");
    for (i, a) in tags.iter().enumerate() {
        for b in tags.iter().skip(i + 1) {
            assert_ne!(a, b);
        }
    }
}

#[test]
fn tags_round_trip_through_the_enum() {
    for tag in get_all_tags() {
        let e = ERecordType::from_tag(tag.as_str()).expect("known tag");
        assert_eq!(e.tag_str(), tag.as_str());
    }
}

#[test]
fn unknown_tags_are_rejected() {
    assert!(ERecordType::from_tag("????").is_none());
    assert!(ERecordType::from_tag("tes3").is_none());
    assert!(ERecordType::from_tag("").is_none());
    assert!(ERecordType::from_tag("CELLX").is_none());
}

#[test]
fn create_from_tag_builds_typed_defaults() {
    let rec = create_from_tag("CELL").expect("cell record");
    assert_eq!(rec.tag, "CELL");
    assert_eq!(rec.id, "");
    match rec.body {
        RecordBody::Cell(c) => {
            assert_eq!(c.x, 0);
            assert_eq!(c.y, 0);
            assert!(!c.is_interior);
            assert!(c.refs.is_empty());
        },
        _ => panic!("wrong body"),
    }
    let rec = create_from_tag("NPC_").expect("character record");
    assert!(matches!(rec.body, RecordBody::Npc(_)));
    let rec = create_from_tag("MISC").expect("item record");
    assert!(matches!(rec.body, RecordBody::Other(_)));
    assert!(create_from_tag("nope").is_none());
}

#[test]
fn mismatched_payload_fails_projection() {
    // a record tagged CELL whose payload is not a cell cannot be projected
    let rec = Record { tag: s("CELL"), id: s("broken"), body: RecordBody::Other(vec![1, 2]) };
    assert!(rec.as_cell().is_err());
    assert!(rec.as_landscape().is_err());
    assert!(rec.as_region().is_err());
    assert!(rec.as_npc().is_err());
}

#[test]
fn unique_id_joins_tag_and_editor_id() {
    let rec = Record { tag: s("MISC"), id: s("potion"), body: RecordBody::Other(Vec::new()) };
    assert_eq!(get_unique_id(&rec), "MISC,potion");
    let hdr = Record { tag: s("TES3"), id: s(""), body: RecordBody::Other(Vec::new()) };
    assert_eq!(get_unique_id(&hdr), "TES3,");
}
