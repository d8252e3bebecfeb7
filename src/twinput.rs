use vstd::prelude::*;

use crate::error::AggregateError;
use crate::json_model::{json_doc_of, parse_document, readable_json};
use crate::text::{chars_of, string_of};
use crate::twentry::{entry_read, entry_valid, TimeWarriorEntry};

verus! {

/// The key of the line that gives the start of the reporting window.
pub const START_KEY: &'static str = "temp.report.start";

/// The key of the line that gives the end of the reporting window.
pub const END_KEY: &'static str = "temp.report.end";

/// `l` without a final carriage return.
pub open spec fn strip_cr(l: Seq<char>) -> Seq<char> {
    if l.len() > 0 && l.last() == '\r' {
        l.drop_last()
    } else {
        l
    }
}

/// The pieces of `cs` between line feeds: each piece that a line feed ends
/// loses a final carriage return, and the last piece holds what follows the
/// last line feed.
pub open spec fn pieces(cs: Seq<char>) -> Seq<Seq<char>>
    decreases cs.len(),
{
    if cs.len() == 0 {
        seq![Seq::empty()]
    } else {
        let p = pieces(cs.drop_last());
        if cs.last() == '\n' {
            p.update(p.len() - 1, strip_cr(p.last())).push(Seq::empty())
        } else {
            p.update(p.len() - 1, p.last().push(cs.last()))
        }
    }
}

/// The lines of a text: its pieces between line feeds, without an empty
/// last piece.
pub open spec fn text_lines(cs: Seq<char>) -> Seq<Seq<char>> {
    let p = pieces(cs);
    if p.last().len() == 0 {
        p.drop_last()
    } else {
        p
    }
}

pub open spec fn starts_with(l: Seq<char>, k: Seq<char>) -> bool {
    k.len() <= l.len() && l.take(k.len() as int) == k
}

/// The index of the first `c` in `s` from `i` on; the length of `s` when there is none.
pub open spec fn find_from(s: Seq<char>, c: char, i: int) -> int
    decreases s.len() - i,
{
    if i < 0 || i >= s.len() {
        s.len() as int
    } else if s[i] == c {
        i
    } else {
        find_from(s, c, i + 1)
    }
}

/// The second field of a line split at single spaces; empty when the line has no space.
pub open spec fn second_field(l: Seq<char>) -> Seq<char> {
    let a = find_from(l, ' ', 0);
    if a >= l.len() {
        Seq::empty()
    } else {
        l.subrange(a + 1, find_from(l, ' ', a + 1))
    }
}

/// Whether a line holds a time entry.
pub open spec fn is_entry_line(l: Seq<char>) -> bool {
    starts_with(l, seq!['{'])
}

pub open spec fn is_start_line(l: Seq<char>) -> bool {
    !is_entry_line(l) && starts_with(l, START_KEY@)
}

pub open spec fn is_end_line(l: Seq<char>) -> bool {
    !is_entry_line(l) && !starts_with(l, START_KEY@) && starts_with(l, END_KEY@)
}

/// The start of the window that the lines give: the value of the last start
/// line, empty when there is none.
pub open spec fn start_value(lines: Seq<Seq<char>>) -> Seq<char>
    decreases lines.len(),
{
    if lines.len() == 0 {
        Seq::empty()
    } else if is_start_line(lines.last()) {
        second_field(lines.last())
    } else {
        start_value(lines.drop_last())
    }
}

/// The end of the window that the lines give: the value of the last end
/// line, empty when there is none.
pub open spec fn end_value(lines: Seq<Seq<char>>) -> Seq<char>
    decreases lines.len(),
{
    if lines.len() == 0 {
        Seq::empty()
    } else if is_end_line(lines.last()) {
        second_field(lines.last())
    } else {
        end_value(lines.drop_last())
    }
}

/// The lines that hold a time entry, in order.
pub open spec fn entry_lines(lines: Seq<Seq<char>>) -> Seq<Seq<char>>
    decreases lines.len(),
{
    if lines.len() == 0 {
        Seq::empty()
    } else if is_entry_line(lines.last()) {
        entry_lines(lines.drop_last()).push(lines.last())
    } else {
        entry_lines(lines.drop_last())
    }
}

/// The JSON text of an entry line: the line without one final comma.
pub open spec fn entry_text(l: Seq<char>) -> Seq<char> {
    if l.len() > 0 && l.last() == ',' {
        l.drop_last()
    } else {
        l
    }
}

/// Whether an entry line reads as a time entry.
pub open spec fn entry_line_ok(l: Seq<char>) -> bool {
    readable_json(entry_text(l)) && entry_valid(json_doc_of(entry_text(l))->Some_0)
}

/// Whether every entry line of `lines` reads as a time entry.
pub open spec fn entry_lines_ok(lines: Seq<Seq<char>>) -> bool {
    forall|k: int| 0 <= k < lines.len() && is_entry_line(#[trigger] lines[k]) ==> entry_line_ok(lines[k])
}

/// Whether `entries` are the entries that the entry lines of `lines` hold, in order.
pub open spec fn entries_read(lines: Seq<Seq<char>>, entries: Seq<TimeWarriorEntry>) -> bool {
    let ls = entry_lines(lines);
    &&& entries.len() == ls.len()
    &&& forall|j: int| 0 <= j < ls.len() ==> entry_read(json_doc_of(entry_text(ls[j]))->Some_0, #[trigger] entries[j])
}

/// What the time tracker hands over: the bounds of the reporting window, as
/// written in the input, and the entries logged in it.
pub struct TimeWarriorInput {
    pub start: String,
    pub end: String,
    pub twentries: Vec<TimeWarriorEntry>,
}

proof fn lemma_pieces_nonempty(cs: Seq<char>)
    ensures
        pieces(cs).len() >= 1,
    decreases cs.len(),
{
    if cs.len() > 0 {
        lemma_pieces_nonempty(cs.drop_last());
    }
}

fn has_prefix(line: &Vec<char>, key: &Vec<char>) -> (r: bool)
    ensures
        r == starts_with(line@, key@),
{
    if key.len() > line.len() {
        return false;
    }
    let mut i: usize = 0;
    while i < key.len()
        invariant
            key@.len() <= line@.len(),
            i <= key@.len(),
            forall|k: int| 0 <= k < i ==> line@[k] == key@[k],
        decreases key.len() - i,
    {
        if line[i] != key[i] {
            assert(line@.take(key@.len() as int)[i as int] != key@[i as int]);
            return false;
        }
        i = i + 1;
    }
    assert(line@.take(key@.len() as int) =~= key@);
    true
}

fn find_space(line: &Vec<char>, from: usize) -> (r: usize)
    requires
        from <= line@.len(),
    ensures
        r == find_from(line@, ' ', from as int),
        from <= r <= line@.len(),
{
    let mut j: usize = from;
    while j < line.len() && line[j] != ' '
        invariant
            from <= j <= line@.len(),
            find_from(line@, ' ', from as int) == find_from(line@, ' ', j as int),
        decreases line@.len() - j,
    {
        j = j + 1;
    }
    j
}

fn second_field_of(line: &Vec<char>) -> (r: Vec<char>)
    ensures
        r@ == second_field(line@),
{
    let a = find_space(line, 0);
    if a >= line.len() {
        return Vec::new();
    }
    let b = find_space(line, a + 1);
    let mut out: Vec<char> = Vec::new();
    let mut k: usize = a + 1;
    while k < b
        invariant
            a + 1 <= k <= b <= line@.len(),
            out@ == line@.subrange(a + 1, k as int),
        decreases b - k,
    {
        out.push(line[k]);
        assert(out@ =~= line@.subrange(a + 1, k + 1));
        k = k + 1;
    }
    out
}

/// The state of the reader after some lines: the last window bounds seen and the entries read.
struct Reading {
    start: Vec<char>,
    end: Vec<char>,
    entries: Vec<TimeWarriorEntry>,
}

impl Reading {
    spec fn after(&self, lines: Seq<Seq<char>>) -> bool {
        &&& self.start@ == start_value(lines)
        &&& self.end@ == end_value(lines)
        &&& entries_read(lines, self.entries@)
        &&& entry_lines_ok(lines)
    }
}

/// Takes one line into the reading.
fn take_line(
    line: &Vec<char>,
    reading: &mut Reading,
    entry_key: &Vec<char>,
    start_key: &Vec<char>,
    end_key: &Vec<char>,
) -> (r: Result<(), AggregateError>)
    requires
        entry_key@ == seq!['{'],
        start_key@ == START_KEY@,
        end_key@ == END_KEY@,
    ensures
        r is Err <==> is_entry_line(line@) && !entry_line_ok(line@),
        r is Err ==> r->Err_0 is MalformedEntry,
        forall|lines: Seq<Seq<char>>| old(reading).after(lines) && r is Ok ==> #[trigger] final(reading).after(lines.push(line@)),
{
    let ghost before = *reading;
    if has_prefix(line, entry_key) {
        let mut text: Vec<char> = line.clone();
        if text.len() > 0 && text[text.len() - 1] == ',' {
            text.pop();
        }
        let json_text = string_of(text.as_slice());
        assert(json_text@ =~= entry_text(line@));
        let jv = match parse_document(json_text.as_str()) {
            Ok(v) => v,
            Err(_) => return Err(AggregateError::MalformedEntry),
        };
        let e = match TimeWarriorEntry::parse_from_json_value(&jv) {
            Ok(e) => e,
            Err(err) => return Err(err),
        };
        reading.entries.push(e);
        proof {
            assert forall|lines: Seq<Seq<char>>| before.after(lines) implies #[trigger] reading.after(lines.push(line@)) by {
                let all = lines.push(line@);
                assert(all.drop_last() =~= lines);
                assert(entry_lines(all) == entry_lines(lines).push(line@));
                let ls = entry_lines(all);
                assert forall|j: int| 0 <= j < ls.len() implies entry_read(json_doc_of(entry_text(ls[j]))->Some_0, #[trigger] reading.entries@[j]) by {
                    if j < ls.len() - 1 {
                        assert(ls[j] == entry_lines(lines)[j]);
                        assert(reading.entries@[j] == before.entries@[j]);
                    }
                }
                assert forall|k: int| 0 <= k < all.len() && is_entry_line(#[trigger] all[k]) implies entry_line_ok(all[k]) by {
                    if k < lines.len() {
                        assert(all[k] == lines[k]);
                    }
                }
            }
        }
    } else {
        if has_prefix(line, start_key) {
            reading.start = second_field_of(line);
        } else if has_prefix(line, end_key) {
            reading.end = second_field_of(line);
        }
        proof {
            assert forall|lines: Seq<Seq<char>>| before.after(lines) implies #[trigger] reading.after(lines.push(line@)) by {
                let all = lines.push(line@);
                assert(all.drop_last() =~= lines);
                assert(entry_lines(all) == entry_lines(lines));
                assert forall|k: int| 0 <= k < all.len() && is_entry_line(#[trigger] all[k]) implies entry_line_ok(all[k]) by {
                    if k < lines.len() {
                        assert(all[k] == lines[k]);
                    }
                }
            }
        }
    }
    Ok(())
}

impl TimeWarriorInput {
    /// Reads the input that the time tracker hands to an extension: lines
    /// that start with `{` hold one time entry each, as a JSON object,
    /// perhaps followed by a comma; the second space-separated field of the
    /// last line that starts with `temp.report.start` (`temp.report.end`) is
    /// the start (end) of the reporting window; other lines are ignored. An
    /// entry that cannot be read refuses the input, and so does a missing
    /// bound of the window.
    pub fn parse_from_str(s: &String) -> (r: Result<TimeWarriorInput, AggregateError>)
        ensures
            r is Ok <==> entry_lines_ok(text_lines(s@)) && start_value(text_lines(s@)).len() > 0
                && end_value(text_lines(s@)).len() > 0,
            r is Err && !entry_lines_ok(text_lines(s@)) ==> r->Err_0 is MalformedEntry,
            r is Err && entry_lines_ok(text_lines(s@)) ==> r->Err_0 is MissingReportBounds,
            r is Ok ==> {
                let input = r->Ok_0;
                &&& input.start@ == start_value(text_lines(s@))
                &&& input.end@ == end_value(text_lines(s@))
                &&& entries_read(text_lines(s@), input.twentries@)
            },
    {
        let cs = chars_of(s.as_str());
        let entry_key: Vec<char> = chars_of("{");
        let start_key = chars_of(START_KEY);
        let end_key = chars_of(END_KEY);
        proof {
            reveal_strlit("{");
        }
        assert(entry_key@ =~= seq!['{']);
        let mut reading = Reading { start: Vec::new(), end: Vec::new(), entries: Vec::new() };
        let mut cur: Vec<char> = Vec::new();
        let ghost mut done: Seq<Seq<char>> = Seq::empty();
        let mut i: usize = 0;
        let mut failed = false;
        while i < cs.len()
            invariant
                cs@ == s@,
                i <= cs@.len(),
                entry_key@ == seq!['{'],
                start_key@ == START_KEY@,
                end_key@ == END_KEY@,
                pieces(cs@.take(i as int)) == done.push(cur@),
                !failed ==> reading.after(done),
                failed ==> !entry_lines_ok(done),
            decreases cs@.len() - i,
        {
            let c = cs[i];
            proof {
                assert(cs@.take(i + 1).drop_last() =~= cs@.take(i as int));
                assert(cs@.take(i + 1).last() == c);
                lemma_pieces_nonempty(cs@.take(i as int));
            }
            if c == '\n' {
                if cur.len() > 0 && cur[cur.len() - 1] == '\r' {
                    cur.pop();
                }
                let ghost line = cur@;
                                if !failed {
                    match take_line(&cur, &mut reading, &entry_key, &start_key, &end_key) {
                        Ok(()) => {},
                        Err(_) => {
                            failed = true;
                        },
                    }
                }
                proof {
                    let old_done = done;
                    done = done.push(line);
                    assert(done[done.len() - 1] == line);
                    if failed {
                        lemma_not_ok_push(old_done, line);
                    } else {
                        assert(reading.after(old_done.push(line)));
                    }
                }
                cur = Vec::new();
                assert(pieces(cs@.take(i + 1)) =~= done.push(cur@));
            } else {
                cur.push(c);
                assert(pieces(cs@.take(i + 1)) =~= done.push(cur@));
            }
            i = i + 1;
        }
        proof {
            assert(cs@.take(cs@.len() as int) =~= cs@);
            lemma_pieces_nonempty(cs@);
        }
        let ghost lines = text_lines(s@);
        if cur.len() > 0 {
            assert(lines =~= done.push(cur@));
                        if !failed {
                match take_line(&cur, &mut reading, &entry_key, &start_key, &end_key) {
                    Ok(()) => {},
                    Err(_) => {
                        failed = true;
                    },
                }
            }
            proof {
                if failed {
                    lemma_not_ok_push(done, cur@);
                } else {
                    assert(reading.after(done.push(cur@)));
                    assert(reading.after(lines));
                }
            }
        } else {
            assert(lines =~= done);
        }
        if failed {
            return Err(AggregateError::MalformedEntry);
        }
        if reading.start.len() == 0 || reading.end.len() == 0 {
            return Err(AggregateError::MissingReportBounds);
        }
        Ok(
            TimeWarriorInput {
                start: string_of(reading.start.as_slice()),
                end: string_of(reading.end.as_slice()),
                twentries: reading.entries,
            },
        )
    }
}

proof fn lemma_not_ok_push(done: Seq<Seq<char>>, line: Seq<char>)
    requires
        !entry_lines_ok(done) || (is_entry_line(line) && !entry_line_ok(line)),
    ensures
        !entry_lines_ok(done.push(line)),
{
    let all = done.push(line);
    if !entry_lines_ok(done) {
        let k = choose|k: int| 0 <= k < done.len() && is_entry_line(#[trigger] done[k]) && !entry_line_ok(done[k]);
        assert(all[k] == done[k]);
    } else {
        assert(all[done.len() as int] == line);
    }
}

} // verus!
