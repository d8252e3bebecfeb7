use timew_aggregate::json_model::parse_document;
use timew_aggregate::duration::Duration;
use timew_aggregate::tagset::TagSet;
use timew_aggregate::twentry::TimeWarriorEntry;
use timew_aggregate::twinput::TimeWarriorInput;
use timew_aggregate::workgroup::{allocation_seconds, process, WorkGroup};

fn entry(tags: &[&str], start: i64, end: i64) -> TimeWarriorEntry {
    TimeWarriorEntry {
        tagset: TagSet::from_tags(tags.iter().map(|t| t.to_string()).collect()),
        start,
        end,
    }
}

fn group(tags: &[&str], allocated: i64) -> WorkGroup {
    WorkGroup {
        tagset: TagSet::from_tags(tags.iter().map(|t| t.to_string()).collect()),
        time_allocated: Duration::seconds(allocated),
        time_spent: Duration::seconds(0),
    }
}

fn input(entries: Vec<TimeWarriorEntry>) -> TimeWarriorInput {
    TimeWarriorInput {
        start: "20210723T000000Z".to_string(),
        end: "20210724T000000Z".to_string(),
        twentries: entries,
    }
}

#[test]
fn workgroup_parse_from_json_value() {
    let s = "{\"tags\": [ \"office\", \"project\" ], \"allocation\": 0.5}";
    let jv = parse_document(&s).unwrap();
    let wg = WorkGroup::parse_from_json_value(&jv).unwrap();

    assert_eq!(wg.tagset.tags.len(), 2);
    assert!(wg.tagset.tags.contains(&"office".to_string()));
    assert!(wg.tagset.tags.contains(&"project".to_string()));

    assert_eq!(wg.time_allocated.num_minutes(), 30);
    assert_eq!(wg.time_spent.num_minutes(), 0);
}

#[test]
fn matches() {
    let s = "{\"tags\": [ \"personal\", \"learning\" ], \"allocation\": 0.5}";
    let jv = parse_document(&s).unwrap();
    let wg = WorkGroup::parse_from_json_value(&jv).unwrap();

    let s = "{\"id\":3,\"start\":\"20210722T152328Z\",\"tags\":[\"Rust talks\",\"learning\",\"personal\"]}";
    let jv = parse_document(&s).unwrap();
    let twe = TimeWarriorEntry::parse_from_json_value(&jv).unwrap();
    assert!(wg.matches(&twe));

    let s = "{\"id\":3,\"start\":\"20210722T152328Z\",\"tags\":[\"Rust talks\",\"office\",\"project\"]}";
    let jv = parse_document(&s).unwrap();
    let twe = TimeWarriorEntry::parse_from_json_value(&jv).unwrap();
    assert!(!wg.matches(&twe));
}

#[test]
fn workgroup_duration() {
    let s = "{\"tags\": [ \"personal\", \"learning\" ], \"allocation\": 0.5}";
    let jv = parse_document(&s).unwrap();
    let mut wg = WorkGroup::parse_from_json_value(&jv).unwrap();

    let s = "{\"id\":3,\"start\":\"20210722T152328Z\",\"end\":\"20210722T152330Z\",\"tags\":[\"Rust talks\",\"learning\",\"personal\"]}";
    let jv = parse_document(&s).unwrap();
    let twe = TimeWarriorEntry::parse_from_json_value(&jv).unwrap();

    assert_eq!(wg.time_spent.num_seconds(), 0);
    wg.process(&twe);
    assert_eq!(wg.time_spent.num_seconds(), 2);
    wg.process(&twe);
    assert_eq!(wg.time_spent.num_seconds(), 4);
}

#[test]
fn allocation_hours_become_whole_seconds() {
    assert_eq!(allocation_seconds(true, 5, -1), 1800);
    assert_eq!(allocation_seconds(true, 3, 0), 10800);
    assert_eq!(allocation_seconds(true, 115, -2), 4140);
    assert_eq!(allocation_seconds(true, 1, -4), 0);
    assert_eq!(allocation_seconds(true, 1, -3), 3);
    assert_eq!(allocation_seconds(false, 25, -1), -9000);
    assert_eq!(allocation_seconds(true, 2, 3), 7_200_000);
    assert_eq!(allocation_seconds(true, 1, 30), i64::MAX);
    assert_eq!(allocation_seconds(false, 1, 30), i64::MIN);
    assert_eq!(allocation_seconds(true, 7, -400), 0);
}

#[test]
fn allocation_that_is_not_a_number_is_malformed() {
    let jv = parse_document("{\"tags\": [\"a\"], \"allocation\": \"3\"}").unwrap();
    assert!(WorkGroup::parse_from_json_value(&jv).is_none());
    let jv = parse_document("{\"tags\": [\"a\"]}").unwrap();
    assert!(WorkGroup::parse_from_json_value(&jv).is_none());
    let jv = parse_document("{\"allocation\": 1}").unwrap();
    assert!(WorkGroup::parse_from_json_value(&jv).is_none());
}

#[test]
fn remaining_is_clamped_at_zero() {
    let mut g = group(&["a"], 0);
    g.process(&entry(&["a"], 0, 600));
    assert_eq!(g.remaining().num_seconds(), 0);
    let mut g = group(&["a"], 3600);
    g.process(&entry(&["a"], 0, 600));
    assert_eq!(g.remaining().num_seconds(), 3000);
}

#[test]
fn first_declared_group_wins() {
    let mut groups = vec![group(&["office"], 3600), group(&["office", "project"], 3600)];
    let inp = input(vec![entry(&["office", "project", "x"], 0, 120)]);
    process(&inp, &mut groups);
    assert_eq!(groups[0].time_spent.num_seconds(), 120);
    assert_eq!(groups[1].time_spent.num_seconds(), 0);
}

#[test]
fn spent_is_sum_of_matched_durations() {
    let mut groups = vec![group(&["a"], 3600), group(&["b"], 3600)];
    let inp = input(vec![entry(&["a"], 0, 100), entry(&["a", "c"], 50, 80), entry(&["b"], 0, 7)]);
    process(&inp, &mut groups);
    assert_eq!(groups[0].time_spent.num_seconds(), 130);
    assert_eq!(groups[1].time_spent.num_seconds(), 7);
}

#[test]
fn unmatched_entry_contributes_nothing() {
    let mut groups = vec![group(&["a"], 3600), group(&["b"], 3600)];
    let inp = input(vec![entry(&["c"], 0, 500), entry(&["a"], 0, 10)]);
    process(&inp, &mut groups);
    assert_eq!(groups[0].time_spent.num_seconds(), 10);
    assert_eq!(groups[1].time_spent.num_seconds(), 0);
}

#[test]
fn empty_required_tags_match_every_entry() {
    let mut groups = vec![group(&[], 3600)];
    let inp = input(vec![entry(&["c"], 0, 500), entry(&[], 0, 10)]);
    process(&inp, &mut groups);
    assert_eq!(groups[0].time_spent.num_seconds(), 510);
}

#[test]
fn duration_parts_round_toward_zero() {
    let d = Duration::seconds(-5430);
    assert_eq!(d.num_hours(), -1);
    assert_eq!(d.num_minutes(), -90);
    let d = Duration::seconds(5430);
    assert_eq!(d.num_hours(), 1);
    assert_eq!(d.num_minutes(), 90);
}
