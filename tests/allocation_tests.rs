use timew_aggregate::allocation::{
    allocation_file_path, classify_window, get_allocation_path, load_workgroups, workgroups_from_records,
    WindowKind, SAMPLE_DOCUMENT,
};
use timew_aggregate::json_model::{parse_document, JsonModel};
use timew_aggregate::error::AggregateError;
use timew_aggregate::twinput::TimeWarriorInput;
use timew_aggregate::window::CalendarDate;

fn date(year: i32, month: u32, day: u32, day_number: i32) -> CalendarDate {
    CalendarDate { year, month, day, day_number }
}

fn window_input(start: &str, end: &str) -> TimeWarriorInput {
    TimeWarriorInput { start: start.to_string(), end: end.to_string(), twentries: vec![] }
}

#[test]
fn get_workgroups_unsupported() {
    let inp = window_input("20210723T183000Z", "20210729T183000Z");
    assert!(get_allocation_path(&inp, "/home/u/.timewarrior/aggregate").is_err());
}

#[test]
fn one_day_selects_the_daily_file() {
    let s = date(2021, 7, 23, 737994);
    let e = date(2021, 7, 24, 737995);
    assert_eq!(classify_window(&s, &e).unwrap(), WindowKind::Daily);
    assert_eq!(allocation_file_path("/cfg", &s, &e).unwrap(), "/cfg/allocation/2021/7/23.json");
}

#[test]
fn seven_days_select_the_weekly_file() {
    let s = date(2021, 8, 2, 738004);
    let e = date(2021, 8, 9, 738011);
    assert_eq!(classify_window(&s, &e).unwrap(), WindowKind::Weekly);
    assert_eq!(allocation_file_path("/cfg", &s, &e).unwrap(), "/cfg/allocation/2021/8/week-of-2.json");
}

#[test]
fn other_window_lengths_are_refused() {
    let s = date(2021, 7, 23, 737994);
    for (n, days) in [(737994, 0i64), (738000, 6), (738002, 8), (737993, -1), (738024, 30)] {
        let e = date(2021, 7, 23, n);
        match allocation_file_path("/cfg", &s, &e) {
            Err(AggregateError::UnsupportedWindow { days: d, .. }) => assert_eq!(d, days),
            other => panic!("unexpected {:?}", other),
        }
    }
}

#[test]
fn a_day_window_from_timestamps_gives_a_daily_path() {
    let inp = window_input("20210723T120000Z", "20210724T120000Z");
    let path = get_allocation_path(&inp, "/cfg").unwrap();
    assert!(path.starts_with("/cfg/allocation/2021/7/"));
    assert!(!path.contains("week-of-"));
    let inp = window_input("20210723T120000Z", "20210730T120000Z");
    let path = get_allocation_path(&inp, "/cfg").unwrap();
    assert!(path.contains("/week-of-"));
}

#[test]
fn unreadable_window_bounds_are_refused() {
    let inp = window_input("yesterday", "20210724T120000Z");
    assert!(matches!(get_allocation_path(&inp, "/cfg"), Err(AggregateError::MalformedReportBounds)));
}

#[test]
fn empty_allocation_file_defines_no_groups() {
    match load_workgroups("/cfg/a.json", Some("[]"), false) {
        Err(AggregateError::NoWorkGroupsDefined { path }) => assert_eq!(path, "/cfg/a.json"),
        other => panic!("unexpected {:?}", other.map(|v| v.len())),
    }
    assert!(matches!(
        workgroups_from_records("p", &vec![]),
        Err(AggregateError::NoWorkGroupsDefined { .. })
    ));
}

#[test]
fn missing_allocation_file() {
    match load_workgroups("/cfg/a.json", None, false) {
        Err(AggregateError::AllocationFileMissing { path }) => assert_eq!(path, "/cfg/a.json"),
        other => panic!("unexpected {:?}", other.map(|v| v.len())),
    }
    match load_workgroups("/cfg/a.json", None, true) {
        Err(AggregateError::SampleDocument { path, document: doc }) => {
            assert_eq!(path, "/cfg/a.json");
            assert_eq!(doc, SAMPLE_DOCUMENT);
            let groups = load_workgroups("/cfg/a.json", Some(&doc), false).unwrap();
            assert_eq!(groups.len(), 3);
            assert_eq!(groups[0].time_allocated.num_seconds(), 3 * 3600);
            assert_eq!(groups[2].time_allocated.num_seconds(), 3600);
        }
        other => panic!("unexpected {:?}", other.map(|v| v.len())),
    }
}

#[test]
fn malformed_allocation_files() {
    assert!(matches!(
        load_workgroups("p", Some("[{"), false),
        Err(AggregateError::MalformedAllocationFile { .. })
    ));
    assert!(matches!(
        load_workgroups("p", Some("{\"tags\": []}"), false),
        Err(AggregateError::MalformedAllocationFile { .. })
    ));
    assert!(matches!(
        load_workgroups("p", Some("[{\"tags\": [\"a\"]}]"), false),
        Err(AggregateError::MalformedWorkGroup { index: 0, .. })
    ));
    match load_workgroups("/cfg/b.json", Some("[{\"tags\": [\"a\"], \"allocation\": 1}, {\"allocation\": 1}]"), false) {
        Err(AggregateError::MalformedWorkGroup { path, index }) => {
            assert_eq!(path, "/cfg/b.json");
            assert_eq!(index, 1);
        }
        other => panic!("unexpected {:?}", other.map(|v| v.len())),
    }
    let long_fraction = format!("[{{\"tags\": [\"a\"], \"allocation\": 0.{}1}}]", "0".repeat(40000));
    assert!(matches!(
        load_workgroups("p", Some(&long_fraction), false),
        Err(AggregateError::MalformedAllocationFile { .. })
    ));
    let fine = format!("[{{\"tags\": [\"a\"], \"allocation\": 1.{}}}]", "0".repeat(100));
    assert_eq!(load_workgroups("p", Some(&fine), false).unwrap()[0].time_allocated.num_seconds(), 3600);
}

#[test]
fn records_keep_file_order() {
    let doc = parse_document("[{\"tags\": [\"b\"], \"allocation\": 2}, {\"tags\": [\"a\"], \"allocation\": 0.5}]").unwrap();
    let items = match doc {
        JsonModel::Array(items) => items,
        other => panic!("unexpected {:?}", other),
    };
    let groups = workgroups_from_records("p", &items).unwrap();
    assert_eq!(groups[0].tagset.tags, vec!["b".to_string()]);
    assert_eq!(groups[0].time_allocated.num_seconds(), 7200);
    assert_eq!(groups[1].time_allocated.num_seconds(), 1800);
    let doc = parse_document("[{\"tags\": [null], \"allocation\": 2}]").unwrap();
    let items = match doc {
        JsonModel::Array(items) => items,
        other => panic!("unexpected {:?}", other),
    };
    assert!(matches!(workgroups_from_records("p", &items), Err(AggregateError::MalformedWorkGroup { index: 0, .. })));
}

#[test]
fn json_members_are_read_by_key() {
    let doc = parse_document("{\"b\": 1, \"a\": \"x\", \"c\": [true, null]}").unwrap();
    match doc {
        JsonModel::Object(members) => {
            assert_eq!(members.len(), 3);
            assert!(members.iter().any(|(k, v)| k == "a" && matches!(v, JsonModel::Text(t) if t == "x")));
            assert!(members.iter().any(|(k, v)| k == "b" && matches!(v, JsonModel::Number(true, 1, 0))));
        }
        other => panic!("unexpected {:?}", other),
    }
    assert!(parse_document("{").is_err());
}
