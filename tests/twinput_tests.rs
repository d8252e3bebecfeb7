use timew_aggregate::error::AggregateError;
use timew_aggregate::twinput::TimeWarriorInput;

const INPUT: &str = "debug: off\n\
temp.report.end: 20210724T183000Z\n\
temp.report.start: 20210723T183000Z\n\
verbose: on\n\
\n\
[\n\
{\"id\":2,\"start\":\"20210723T190000Z\",\"end\":\"20210723T193000Z\",\"tags\":[\"office\",\"project\"]},\n\
{\"id\":1,\"start\":\"20210723T200000Z\",\"end\":\"20210723T201500Z\",\"tags\":[\"office\"]}\n\
]\n";

#[test]
fn input_gives_window_and_entries() {
    let inp = TimeWarriorInput::parse_from_str(&INPUT.to_string()).unwrap();
    assert_eq!(inp.start, "20210723T183000Z");
    assert_eq!(inp.end, "20210724T183000Z");
    assert_eq!(inp.twentries.len(), 2);
    assert_eq!(inp.twentries[0].duration().num_seconds(), 1800);
    assert_eq!(inp.twentries[1].duration().num_seconds(), 900);
}

#[test]
fn input_with_carriage_returns() {
    let text = INPUT.replace('\n', "\r\n");
    let inp = TimeWarriorInput::parse_from_str(&text).unwrap();
    assert_eq!(inp.start, "20210723T183000Z");
    assert_eq!(inp.twentries.len(), 2);
}

#[test]
fn input_without_window_end_is_refused() {
    let text = "temp.report.start: 20210723T183000Z\n[\n]\n".to_string();
    assert!(matches!(TimeWarriorInput::parse_from_str(&text), Err(AggregateError::MissingReportBounds)));
    let text = "temp.report.start:\ntemp.report.end: 20210724T183000Z\n".to_string();
    assert!(matches!(TimeWarriorInput::parse_from_str(&text), Err(AggregateError::MissingReportBounds)));
    assert!(matches!(TimeWarriorInput::parse_from_str(&String::new()), Err(AggregateError::MissingReportBounds)));
}

#[test]
fn input_with_an_unreadable_entry_is_refused() {
    let text = "temp.report.start: 20210723T183000Z\ntemp.report.end: 20210724T183000Z\n{\"start\": 1,\n".to_string();
    assert!(matches!(TimeWarriorInput::parse_from_str(&text), Err(AggregateError::MalformedEntry)));
    let text = "temp.report.start: 20210723T183000Z\ntemp.report.end: 20210724T183000Z\n{\"tags\":[\"a\"]}".to_string();
    assert!(matches!(TimeWarriorInput::parse_from_str(&text), Err(AggregateError::MalformedEntry)));
}

#[test]
fn last_bound_line_wins() {
    let text = "temp.report.start: A\ntemp.report.start: B extra\ntemp.report.end: C".to_string();
    let inp = TimeWarriorInput::parse_from_str(&text).unwrap();
    assert_eq!(inp.start, "B");
    assert_eq!(inp.end, "C");
    assert!(inp.twentries.is_empty());
}
