use timew_aggregate::json_model::parse_document;
use timew_aggregate::error::AggregateError;
use timew_aggregate::twentry::TimeWarriorEntry;

fn formatted(secs: i64) -> String {
    chrono::DateTime::from_timestamp(secs, 0)
        .unwrap()
        .naive_utc()
        .format("%Y-%m-%d %H:%M:%S")
        .to_string()
}

#[test]
fn parse_from_json_value_with_end() {
    let s = "{\"id\":3,\"start\":\"20210722T152328Z\",\"end\":\"20210722T153753Z\",\"tags\":[\"Rust talks\",\"learning\",\"personal\"]}";
    let jv = parse_document(&s).unwrap();
    let twe = TimeWarriorEntry::parse_from_json_value(&jv).unwrap();

    assert_eq!(twe.tagset.tags.len(), 3);
    assert!(twe.tagset.tags.contains(&"personal".to_string()));
    assert!(twe.tagset.tags.contains(&"learning".to_string()));
    assert!(twe.tagset.tags.contains(&"Rust talks".to_string()));

    assert_eq!(formatted(twe.start), "2021-07-22 15:23:28");
    assert_eq!(formatted(twe.end), "2021-07-22 15:37:53");
}

#[test]
fn parse_from_json_value_without_end() {
    let s = "{\"id\":3,\"start\":\"20210722T152328Z\",\"tags\":[\"Rust talks\",\"learning\",\"personal\"]}";
    let jv = parse_document(&s).unwrap();
    let twe = TimeWarriorEntry::parse_from_json_value(&jv).unwrap();

    assert_eq!(twe.tagset.tags.len(), 3);
    assert!(twe.tagset.tags.contains(&"personal".to_string()));
    assert!(twe.tagset.tags.contains(&"learning".to_string()));
    assert!(twe.tagset.tags.contains(&"Rust talks".to_string()));

    assert_eq!(formatted(twe.start), "2021-07-22 15:23:28");
    assert!(twe.end > twe.start);
}

#[test]
fn twentry_duration() {
    let s = "{\"id\":3,\"start\":\"20210722T152328Z\",\"end\":\"20210722T153753Z\",\"tags\":[\"Rust talks\",\"learning\",\"personal\"]}";
    let jv = parse_document(&s).unwrap();
    let twe = TimeWarriorEntry::parse_from_json_value(&jv).unwrap();
    assert_eq!(twe.duration().num_seconds(), 865);
}

#[test]
fn negative_duration_is_kept() {
    let s = "{\"start\":\"20210722T153753Z\",\"end\":\"20210722T152328Z\",\"tags\":[\"a\"]}";
    let jv = parse_document(&s).unwrap();
    let twe = TimeWarriorEntry::parse_from_json_value(&jv).unwrap();
    assert_eq!(twe.duration().num_seconds(), -865);
}

#[test]
fn entry_without_start_or_tags_is_malformed() {
    for s in [
        "{\"tags\":[\"a\"]}",
        "{\"start\":\"20210722T152328Z\"}",
        "{\"start\":\"2021-07-22\",\"tags\":[\"a\"]}",
        "{\"start\":\"20210722T152328Z\",\"end\":\"later\",\"tags\":[\"a\"]}",
    ] {
        let jv = parse_document(s).unwrap();
        let r = TimeWarriorEntry::parse_from_json_value(&jv);
        assert!(matches!(r, Err(AggregateError::MalformedEntry)), "{}", s);
    }
}

#[test]
fn from_parts_uses_now_without_an_end() {
    let e = TimeWarriorEntry::from_parts(Some(vec![Some("a".to_string())]), Some(100), None, 160).unwrap();
    assert_eq!(e.end, 160);
    assert_eq!(e.duration().num_seconds(), 60);
    let e = TimeWarriorEntry::from_parts(Some(vec![Some("a".to_string())]), Some(100), Some(130), 160).unwrap();
    assert_eq!(e.end, 130);
    assert!(TimeWarriorEntry::from_parts(Some(vec![None]), Some(100), None, 160).is_err());
    assert!(TimeWarriorEntry::from_parts(None, Some(100), None, 160).is_err());
    assert!(TimeWarriorEntry::from_parts(Some(vec![]), None, None, 160).is_err());
}
