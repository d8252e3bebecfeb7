use vstd::prelude::*;

use crate::clock::{has_local_date, is_local_date_of, local_date, parse_timestamp, timestamp_of, LOCAL_DATE_BOUND};
use crate::error::AggregateError;
use crate::json_model::{json_doc_of, parse_document, readable_json, JsonModel};
use crate::text::{dec_int, push_int};
use crate::twinput::TimeWarriorInput;
use crate::window::CalendarDate;
use crate::workgroup::{record_declares, record_valid, WorkGroup};

verus! {

/// The two lengths of reporting window that have allocation files.
#[derive(Clone, Copy, Debug, PartialEq, Eq, Structural)]
pub enum WindowKind {
    Daily,
    Weekly,
}

/// The number of calendar days from `start` to `end`.
pub open spec fn window_days(start: CalendarDate, end: CalendarDate) -> int {
    end.day_number - start.day_number
}

/// Whether `e` is the refusal of a window of `days` days from `start` to `end`.
pub open spec fn is_unsupported_window(e: AggregateError, days: int, start: CalendarDate, end: CalendarDate) -> bool {
    match e {
        AggregateError::UnsupportedWindow { days: d, start: s, end: t } => d == days && s == start && t
            == end,
        _ => false,
    }
}

/// Classifies a reporting window by its number of calendar days: one day is
/// daily, seven are weekly, and any other number is refused.
pub fn classify_window(start: &CalendarDate, end: &CalendarDate) -> (r: Result<WindowKind, AggregateError>)
    ensures
        window_days(*start, *end) == 1 <==> r == Ok::<WindowKind, AggregateError>(WindowKind::Daily),
        window_days(*start, *end) == 7 <==> r == Ok::<WindowKind, AggregateError>(WindowKind::Weekly),
        r is Err ==> is_unsupported_window(r->Err_0, window_days(*start, *end), *start, *end),
{
    let days: i64 = end.day_number as i64 - start.day_number as i64;
    if days == 1 {
        Ok(WindowKind::Daily)
    } else if days == 7 {
        Ok(WindowKind::Weekly)
    } else {
        Err(AggregateError::UnsupportedWindow { days, start: *start, end: *end })
    }
}

/// The allocation file of a window of the given kind that starts on `date`:
/// `<dir>/allocation/<year>/<month>/<day>.json` for a day, and
/// `<dir>/allocation/<year>/<month>/week-of-<day>.json` for a week, with
/// numbers written without leading zeros.
pub open spec fn allocation_path_text(config_dir: Seq<char>, kind: WindowKind, date: CalendarDate) -> Seq<char> {
    config_dir + "/allocation/"@ + dec_int(date.year as int) + "/"@ + dec_int(date.month as int) + "/"@
        + match kind {
        WindowKind::Daily => Seq::<char>::empty(),
        WindowKind::Weekly => "week-of-"@,
    } + dec_int(date.day as int) + ".json"@
}

/// The allocation file that governs the window from `start` to `end`, under
/// `config_dir`; the window is refused unless it spans one or seven days.
pub fn allocation_file_path(config_dir: &str, start: &CalendarDate, end: &CalendarDate) -> (r: Result<
    String,
    AggregateError,
>)
    ensures
        r is Ok <==> window_days(*start, *end) == 1 || window_days(*start, *end) == 7,
        r is Ok ==> r->Ok_0@ == allocation_path_text(
            config_dir@,
            if window_days(*start, *end) == 1 {
                WindowKind::Daily
            } else {
                WindowKind::Weekly
            },
            *start,
        ),
        r is Err ==> is_unsupported_window(r->Err_0, window_days(*start, *end), *start, *end),
{
    let kind = match classify_window(start, end) {
        Ok(k) => k,
        Err(e) => return Err(e),
    };
    let mut out = String::from_str(config_dir);
    out.append("/allocation/");
    push_int(&mut out, start.year as i64);
    out.append("/");
    push_int(&mut out, start.month as i64);
    out.append("/");
    if kind == WindowKind::Weekly {
        out.append("week-of-");
    }
    push_int(&mut out, start.day as i64);
    out.append(".json");
    assert(out@ =~= allocation_path_text(config_dir@, kind, *start));
    Ok(out)
}

/// Whether the bounds of the window read as instants that have local dates.
pub open spec fn bounds_readable(twinput: &TimeWarriorInput) -> bool {
    let s = timestamp_of(twinput.start@);
    let e = timestamp_of(twinput.end@);
    &&& s is Some && has_local_date(s->Some_0)
    &&& e is Some && has_local_date(e->Some_0)
}

/// Whether `s` and `e` are dates that the bounds of the window can have in
/// some time zone.
pub open spec fn window_dates_of(twinput: &TimeWarriorInput, s: CalendarDate, e: CalendarDate) -> bool {
    &&& is_local_date_of(s, timestamp_of(twinput.start@)->Some_0)
    &&& is_local_date_of(e, timestamp_of(twinput.end@)->Some_0)
}

/// The local calendar dates of the bounds of the reporting window.
pub fn window_dates(twinput: &TimeWarriorInput) -> (r: Result<(CalendarDate, CalendarDate), AggregateError>)
    ensures
        r is Ok <==> bounds_readable(twinput),
        r is Err ==> r->Err_0 is MalformedReportBounds,
        r is Ok ==> window_dates_of(twinput, r->Ok_0.0, r->Ok_0.1),
{
    let start = match parse_timestamp(twinput.start.as_str()) {
        Some(t) => t,
        None => return Err(AggregateError::MalformedReportBounds),
    };
    let end = match parse_timestamp(twinput.end.as_str()) {
        Some(t) => t,
        None => return Err(AggregateError::MalformedReportBounds),
    };
    if !(-LOCAL_DATE_BOUND < start && start < LOCAL_DATE_BOUND && -LOCAL_DATE_BOUND < end && end
        < LOCAL_DATE_BOUND) {
        return Err(AggregateError::MalformedReportBounds);
    }
    Ok((local_date(start), local_date(end)))
}

/// The allocation file that governs the reporting window of the input.
/// The dates of the window's bounds depend on the local time zone; for
/// any of them the path is the one `allocation_file_path` gives.
pub fn get_allocation_path(twinput: &TimeWarriorInput, config_dir: &str) -> (r: Result<String, AggregateError>)
    ensures
        !bounds_readable(twinput) <==> r is Err && r->Err_0 is MalformedReportBounds,
        r is Err ==> r->Err_0 is MalformedReportBounds || r->Err_0 is UnsupportedWindow,
        r is Err && r->Err_0 is UnsupportedWindow ==> exists|s: CalendarDate, e: CalendarDate|
            window_dates_of(twinput, s, e) && window_days(s, e) != 1 && window_days(s, e) != 7
                && is_unsupported_window(r->Err_0, window_days(s, e), s, e),
        r is Ok ==> exists|s: CalendarDate, e: CalendarDate|
            window_dates_of(twinput, s, e) && (window_days(s, e) == 1 || window_days(s, e) == 7) && r->Ok_0@ == allocation_path_text(
                config_dir@,
                if window_days(s, e) == 1 {
                    WindowKind::Daily
                } else {
                    WindowKind::Weekly
                },
                s,
            ),
{
    let (start, end) = match window_dates(twinput) {
        Ok(d) => d,
        Err(e) => return Err(e),
    };
    let r = allocation_file_path(config_dir, &start, &end);
    assert(window_dates_of(twinput, start, end));
    r
}

/// Whether `e` says that the allocation file at `path` declares no work group.
pub open spec fn is_no_groups(e: AggregateError, path: Seq<char>) -> bool {
    match e {
        AggregateError::NoWorkGroupsDefined { path: p } => p@ == path,
        _ => false,
    }
}

/// Whether `e` names the first record of `items` that is not a work group
/// record, in the allocation file at `path`.
pub open spec fn is_malformed_record(e: AggregateError, path: Seq<char>, items: Seq<JsonModel>) -> bool {
    match e {
        AggregateError::MalformedWorkGroup { path: p, index } => {
            &&& p@ == path
            &&& index < items.len()
            &&& !record_valid(items[index as int])
            &&& forall|k: int| 0 <= k < index ==> record_valid(#[trigger] items[k])
        },
        _ => false,
    }
}

/// Whether `r` is what the work group records `items` of the allocation
/// file at `path` give: no records is an error, as is a malformed record;
/// otherwise the groups they declare, in order.
pub open spec fn records_outcome(r: Result<Vec<WorkGroup>, AggregateError>, path: Seq<char>, items: Seq<JsonModel>) -> bool {
    &&& items.len() == 0 <==> r is Err && is_no_groups(r->Err_0, path)
    &&& r is Ok <==> items.len() > 0 && forall|i: int| 0 <= i < items.len() ==> record_valid(#[trigger] items[i])
    &&& r is Err && items.len() > 0 ==> is_malformed_record(r->Err_0, path, items)
    &&& r is Ok ==> r->Ok_0@.len() == items.len() && forall|i: int|
        0 <= i < items.len() ==> record_declares(items[i], #[trigger] r->Ok_0@[i])
}

/// The work groups that the records declare, in order. An empty list of
/// records is refused, as is a list with a malformed record.
pub fn workgroups_from_records(path: &str, items: &Vec<JsonModel>) -> (r: Result<Vec<WorkGroup>, AggregateError>)
    ensures
        records_outcome(r, path@, items@),
{
    if items.len() == 0 {
        return Err(AggregateError::NoWorkGroupsDefined { path: String::from_str(path) });
    }
    let mut groups: Vec<WorkGroup> = Vec::new();
    let mut i: usize = 0;
    while i < items.len()
        invariant
            i <= items@.len(),
            items@.len() > 0,
            groups@.len() == i,
            forall|k: int| 0 <= k < i ==> record_valid(#[trigger] items@[k]),
            forall|k: int| 0 <= k < i ==> record_declares(items@[k], #[trigger] groups@[k]),
        decreases items@.len() - i,
    {
        match WorkGroup::parse_from_json_value(&items[i]) {
            Some(g) => groups.push(g),
            None => return Err(AggregateError::MalformedWorkGroup { path: String::from_str(path), index: i }),
        }
        i = i + 1;
    }
    Ok(groups)
}

/// An example allocation document, offered in sample mode when the
/// allocation file is missing.
pub const SAMPLE_DOCUMENT: &'static str = "
[
    {
        \"tags\": [
            \"office\",
            \"project\"
        ],
        \"allocation\": 3
    },
    {
        \"tags\": [
            \"office\",
            \"maintenance\"
        ],
        \"allocation\": 3
    },
    {
        \"tags\": [
            \"office\",
            \"review\"
        ],
        \"allocation\": 1
    }
]
";

/// Whether `e` is what a missing allocation file at `path` gives: the
/// example document in sample mode, and the missing file otherwise.
pub open spec fn is_missing_file(e: AggregateError, path: Seq<char>, sample_mode: bool) -> bool {
    match e {
        AggregateError::AllocationFileMissing { path: p } => p@ == path && !sample_mode,
        AggregateError::SampleDocument { path: p, document: d } => p@ == path && sample_mode && d@
            == SAMPLE_DOCUMENT@,
        _ => false,
    }
}

/// Whether `e` says that the allocation file at `path` is not a JSON array.
pub open spec fn is_malformed_file(e: AggregateError, path: Seq<char>) -> bool {
    match e {
        AggregateError::MalformedAllocationFile { path: p, cause: _ } => p@ == path,
        _ => false,
    }
}

/// The work groups of the allocation file at `path`, in the order the file
/// declares them. `contents` is the text of the file, `None` when it does
/// not exist. The text must be a JSON array of work group records, of which
/// there must be at least one.
pub fn load_workgroups(path: &str, contents: Option<&str>, sample_mode: bool) -> (r: Result<
    Vec<WorkGroup>,
    AggregateError,
>)
    ensures
        contents is None ==> r is Err && is_missing_file(r->Err_0, path@, sample_mode),
        contents is Some ==> {
            let text = contents->Some_0@;
            let doc = json_doc_of(text);
            &&& !(readable_json(text) && doc->Some_0 is Array) ==> r is Err && is_malformed_file(r->Err_0, path@)
            &&& readable_json(text) && doc->Some_0 is Array ==> records_outcome(r, path@, doc->Some_0->Array_0@)
        },
{
    let text = match contents {
        Some(t) => t,
        None => {
            if sample_mode {
                return Err(
                    AggregateError::SampleDocument {
                        path: String::from_str(path),
                        document: String::from_str(SAMPLE_DOCUMENT),
                    },
                );
            }
            return Err(AggregateError::AllocationFileMissing { path: String::from_str(path) });
        },
    };
    let document = match parse_document(text) {
        Ok(d) => d,
        Err(cause) => {
            return Err(AggregateError::MalformedAllocationFile { path: String::from_str(path), cause });
        },
    };
    match &document {
        JsonModel::Array(items) => workgroups_from_records(path, items),
        _ => Err(
            AggregateError::MalformedAllocationFile {
                path: String::from_str(path),
                cause: String::from_str("the document is not an array"),
            },
        ),
    }
}

} // verus!
