use timew_aggregate::json_model::parse_document;
use timew_aggregate::tagset::TagSet;

fn tagset_of(text: &str) -> TagSet {
    let jv = parse_document(text).unwrap();
    TagSet::parse_from_json_value(&jv).unwrap()
}

#[test]
fn tagset_parse_from_json_value() {
    let s = "{ \"tags\": [ \"office\", \"project\" ] }";
    let tagset = tagset_of(s);

    assert_eq!(tagset.tags.len(), 2);
    assert!(tagset.tags.contains(&"office".to_string()));
    assert!(tagset.tags.contains(&"project".to_string()));
}

#[test]
fn has_all_tags_of() {
    let tagset1 = tagset_of("{ \"tags\": [ \"office\", \"project\" ] }");
    let tagset2 = tagset_of("{ \"tags\": [ \"office\", \"project\", \"foo\" ] }");
    let tagset3 = tagset_of("{ \"tags\": [ \"office\", \"maintenance\" ] }");

    assert!(tagset1.has_all_tags_of(&tagset2));
    assert!(!tagset1.has_all_tags_of(&tagset3));
}

#[test]
fn duplicate_tags_are_kept_once() {
    let tagset = tagset_of("{ \"tags\": [ \"office\", \"office\", \"project\" ] }");
    assert_eq!(tagset.tags.len(), 2);
}

#[test]
fn empty_tagset_is_contained_in_every_set() {
    let empty = TagSet::from_tags(vec![]);
    let other = tagset_of("{ \"tags\": [ \"office\" ] }");
    assert!(empty.has_all_tags_of(&other));
    assert!(empty.has_all_tags_of(&empty));
    assert!(!other.has_all_tags_of(&empty));
}

#[test]
fn tag_list_with_a_non_string_member_is_refused() {
    let jv = parse_document("{ \"tags\": [ \"office\", 3 ] }").unwrap();
    assert!(TagSet::parse_from_json_value(&jv).is_none());
    let jv = parse_document("{ \"labels\": [ \"office\" ] }").unwrap();
    assert!(TagSet::parse_from_json_value(&jv).is_none());
}
