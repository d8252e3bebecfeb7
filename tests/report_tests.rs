use timew_aggregate::allocation::load_workgroups;
use timew_aggregate::duration::Duration;
use timew_aggregate::report::{format_duration, render_report};
use timew_aggregate::tagset::TagSet;
use timew_aggregate::twentry::TimeWarriorEntry;
use timew_aggregate::twinput::TimeWarriorInput;
use timew_aggregate::workgroup::{process, WorkGroup};

fn line4(a: &str, b: &str, c: &str, d: &str) -> String {
    format!("| {0: <20} | {1: <15} | {2: <15} | {3: <15}\n", a, b, c, d)
}

fn line2(a: &str, b: &str) -> String {
    format!("| {0: <20} | {1: <15}\n", a, b)
}

fn entry(tags: &[&str], start: i64, end: i64) -> TimeWarriorEntry {
    TimeWarriorEntry {
        tagset: TagSet::from_tags(tags.iter().map(|t| t.to_string()).collect()),
        start,
        end,
    }
}

fn scenario_groups() -> Vec<WorkGroup> {
    let text = "[{\"tags\":[\"office\",\"project\"],\"allocation\":3},{\"tags\":[\"office\"],\"allocation\":1}]";
    let mut groups = load_workgroups("/cfg/allocation/2021/7/23.json", Some(text), false).unwrap();
    let inp = TimeWarriorInput {
        start: "20210723T000000Z".to_string(),
        end: "20210724T000000Z".to_string(),
        twentries: vec![
            entry(&["office", "project"], 0, 1800),
            entry(&["office", "project"], 10000, 13600),
            entry(&["office", "other"], 20000, 20900),
        ],
    };
    process(&inp, &mut groups);
    groups
}

#[test]
fn end_to_end_day_report() {
    let groups = scenario_groups();
    assert_eq!(groups[0].time_spent.num_seconds(), 5400);
    assert_eq!(groups[1].time_spent.num_seconds(), 900);
    let expected = line4("group", "spent", "allocated", "remaining")
        + &line4("office project", "1 hrs 30 mins", "3 hrs 0 mins", "1 hrs 30 mins")
        + &line4("office", "0 hrs 15 mins", "1 hrs 0 mins", "0 hrs 45 mins")
        + &line4("total", "1 hrs 45 mins", "4 hrs 0 mins", "2 hrs 15 mins");
    assert_eq!(render_report(&groups, false), expected);
}

#[test]
fn rendering_twice_gives_the_same_text() {
    let groups = scenario_groups();
    assert_eq!(render_report(&groups, false), render_report(&groups, false));
    assert_eq!(render_report(&groups, true), render_report(&groups, true));
}

#[test]
fn skip_allocated_shows_two_columns() {
    let groups = scenario_groups();
    let expected = line2("group", "spent")
        + &line2("office project", "1 hrs 30 mins")
        + &line2("office", "0 hrs 15 mins")
        + &line2("total", "1 hrs 45 mins");
    assert_eq!(render_report(&groups, true), expected);
}

#[test]
fn groups_without_time_are_left_out_with_their_allocation() {
    let text = "[{\"tags\":[\"b\",\"a\"],\"allocation\":2},{\"tags\":[\"c\"],\"allocation\":5}]";
    let groups = load_workgroups("p", Some(text), false).unwrap();
    let mut groups = groups;
    groups[0].process(&entry(&["a", "b"], 0, 60));
    let expected = line4("group", "spent", "allocated", "remaining")
        + &line4("a b", "0 hrs 1 mins", "2 hrs 0 mins", "1 hrs 59 mins")
        + &line4("total", "0 hrs 1 mins", "2 hrs 0 mins", "1 hrs 59 mins");
    assert_eq!(render_report(&groups, false), expected);
}

#[test]
fn overspent_group_shows_zero_remaining() {
    let mut g = WorkGroup {
        tagset: TagSet::from_tags(vec!["x".to_string()]),
        time_allocated: Duration::seconds(0),
        time_spent: Duration::seconds(0),
    };
    g.process(&entry(&["x"], 0, 4000));
    assert_eq!(g.row(false), line4("x", "1 hrs 6 mins", "0 hrs 0 mins", "0 hrs 0 mins"));
    let expected = line4("group", "spent", "allocated", "remaining")
        + &line4("x", "1 hrs 6 mins", "0 hrs 0 mins", "0 hrs 0 mins")
        + &line4("total", "1 hrs 6 mins", "0 hrs 0 mins", "0 hrs 0 mins");
    assert_eq!(render_report(&vec![g], false), expected);
}

#[test]
fn durations_are_written_in_hours_and_minutes() {
    assert_eq!(format_duration(Duration::seconds(0)), "0 hrs 0 mins");
    assert_eq!(format_duration(Duration::seconds(5400)), "1 hrs 30 mins");
    assert_eq!(format_duration(Duration::seconds(-5430)), "-1 hrs -30 mins");
    assert_eq!(format_duration(Duration::seconds(-90)), "0 hrs -1 mins");
    assert_eq!(format_duration(Duration::seconds(36000 * 30 + 59)), "300 hrs 0 mins");
}

#[test]
fn long_labels_are_not_cut() {
    let g = WorkGroup {
        tagset: TagSet::from_tags(vec!["zeta".to_string(), "a-very-long-tag-name".to_string()]),
        time_allocated: Duration::seconds(60),
        time_spent: Duration::seconds(60),
    };
    assert_eq!(g.label(), "a-very-long-tag-name zeta");
    assert_eq!(g.row(true), line2("a-very-long-tag-name zeta", "0 hrs 1 mins"));
}
