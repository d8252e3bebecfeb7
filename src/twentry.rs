use vstd::prelude::*;

use crate::clock::{now_timestamp, parse_timestamp, timestamp_of};

use crate::duration::Duration;
use crate::error::AggregateError;
use crate::json_model::{field_of, json_field, json_text, label_set_at, labels_at, text_at, JsonModel};
use crate::tagset::{labels_from_json, TagSet};

verus! {

/// Instants are seconds since the epoch, strictly between minus and plus this bound.
pub const INSTANT_BOUND: i64 = 281474976710656;

pub open spec fn valid_instant(t: int) -> bool {
    -INSTANT_BOUND < t < INSTANT_BOUND
}

/// Whether a JSON value is a time entry: an object with an array of strings
/// under `tags`, a readable instant under `start`, and under `end` either no
/// text or a readable instant.
pub open spec fn entry_valid(m: JsonModel) -> bool {
    let start = text_at(field_of(m, "start"@));
    let end = text_at(field_of(m, "end"@));
    &&& labels_at(field_of(m, "tags"@))
    &&& start is Some && timestamp_of(start->Some_0) is Some
    &&& end is None || timestamp_of(end->Some_0) is Some
}

/// Whether `e` is the entry that `m` holds; an entry without an end given
/// as text ends at some valid instant, the time it was read.
pub open spec fn entry_read(m: JsonModel, e: TimeWarriorEntry) -> bool {
    let start = text_at(field_of(m, "start"@));
    let end = text_at(field_of(m, "end"@));
    &&& e.wf()
    &&& e.tagset.tag_set() == label_set_at(field_of(m, "tags"@))
    &&& e.start == timestamp_of(start->Some_0)->Some_0
    &&& end is Some ==> e.end == timestamp_of(end->Some_0)->Some_0
}

/// One logged span of time and the tags that describe it. Instants are
/// seconds since the epoch, read as UTC.
#[derive(Debug)]
pub struct TimeWarriorEntry {
    pub tagset: TagSet,
    pub start: i64,
    pub end: i64,
}

impl TimeWarriorEntry {
    pub open spec fn wf(&self) -> bool {
        &&& self.tagset.wf()
        &&& valid_instant(self.start as int)
        &&& valid_instant(self.end as int)
    }

    /// The elapsed time `end - start`, in seconds; negative when the entry ends before it starts.
    pub open spec fn span(&self) -> int {
        self.end - self.start
    }

    /// Builds an entry from its tag list and its instants. The entry is
    /// refused when the tag list is missing or holds a member that is not a
    /// label, or when the start is missing or out of range, or when an end is
    /// given out of range. Without an end, the entry ends at `now`.
    pub fn from_parts(
        labels: Option<Vec<Option<String>>>,
        start: Option<i64>,
        end: Option<i64>,
        now: i64,
    ) -> (r: Result<TimeWarriorEntry, AggregateError>)
        requires
            valid_instant(now as int),
        ensures
            r is Ok <==> {
                &&& TagSet::labels_present(labels)
                &&& start is Some && valid_instant(start->Some_0 as int)
                &&& end is None || valid_instant(end->Some_0 as int)
            },
            r is Err ==> r->Err_0 is MalformedEntry,
            r is Ok ==> {
                let e = r->Ok_0;
                &&& e.wf()
                &&& e.tagset.tag_set() == TagSet::label_set(labels)
                &&& e.start == start->Some_0
                &&& e.end == (if end is Some { end->Some_0 } else { now })
            },
    {
        let tagset = match TagSet::from_members(labels) {
            Some(t) => t,
            None => return Err(AggregateError::MalformedEntry),
        };
        let start = match start {
            Some(s) => s,
            None => return Err(AggregateError::MalformedEntry),
        };
        if !(-INSTANT_BOUND < start && start < INSTANT_BOUND) {
            return Err(AggregateError::MalformedEntry);
        }
        let end = match end {
            Some(e) => {
                if !(-INSTANT_BOUND < e && e < INSTANT_BOUND) {
                    return Err(AggregateError::MalformedEntry);
                }
                e
            },
            None => now,
        };
        Ok(TimeWarriorEntry { tagset, start, end })
    }

    /// Reads an entry from a JSON object with a tag list under `tags`, and
    /// instants of the form `YYYYMMDDThhmmssZ` under `start` and, optionally,
    /// `end`. Without an end given as text, the entry ends now. An end that is
    /// given but cannot be read refuses the entry.
    pub fn parse_from_json_value(jv: &JsonModel) -> (r: Result<TimeWarriorEntry, AggregateError>)
        ensures
            r is Ok <==> entry_valid(*jv),
            r is Err ==> r->Err_0 is MalformedEntry,
            r is Ok ==> entry_read(*jv, r->Ok_0),
    {
        let labels = labels_from_json(json_field(jv, "tags"));
        let start = match json_text(json_field(jv, "start")) {
            Some(text) => parse_timestamp(text.as_str()),
            None => None,
        };
        let end = match json_text(json_field(jv, "end")) {
            Some(text) => match parse_timestamp(text.as_str()) {
                Some(t) => Some(t),
                None => return Err(AggregateError::MalformedEntry),
            },
            None => None,
        };
        let now = now_timestamp();
        Self::from_parts(labels, start, end, now)
    }

    /// The elapsed time of the entry.
    pub fn duration(&self) -> (r: Duration)
        requires
            self.wf(),
        ensures
            r.secs == self.span(),
    {
        Duration::seconds(self.end - self.start)
    }
}

} // verus!
