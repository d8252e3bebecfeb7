use vstd::prelude::*;

use crate::duration::{trunc_div, trunc_rem, Duration};
use crate::text::{dec_int, join_labels, join_spaced, pad_right, push_int, push_padded, sort_texts, sorted_labels};
use crate::workgroup::{clamped_remaining, WorkGroup};

verus! {

/// A span as `<hours> hrs <minutes> mins`: whole hours, and the minutes
/// beyond them, both rounded toward zero.
pub open spec fn duration_text(secs: int) -> Seq<char> {
    dec_int(trunc_div(secs, 3600)) + " hrs "@ + dec_int(trunc_rem(trunc_div(secs, 60), 60))
        + " mins"@
}

/// One line of the table: the label in 20 columns and each span in 15; only
/// the label and the time spent when `skip_allocated` holds.
pub open spec fn row_text(
    label: Seq<char>,
    spent: Seq<char>,
    allocated: Seq<char>,
    remaining: Seq<char>,
    skip_allocated: bool,
) -> Seq<char> {
    if skip_allocated {
        "| "@ + pad_right(label, 20) + " | "@ + pad_right(spent, 15) + "\n"@
    } else {
        "| "@ + pad_right(label, 20) + " | "@ + pad_right(spent, 15) + " | "@ + pad_right(
            allocated,
            15,
        ) + " | "@ + pad_right(remaining, 15) + "\n"@
    }
}

/// A work group's tags in ascending order, a space between each two.
pub open spec fn group_label(g: WorkGroup) -> Seq<char> {
    join_spaced(sort_texts(g.tagset.tag_seq()))
}

/// The line of the table for one work group.
pub open spec fn group_row(g: WorkGroup, skip_allocated: bool) -> Seq<char> {
    let spent = g.time_spent.secs as int;
    let allocated = g.time_allocated.secs as int;
    row_text(
        group_label(g),
        duration_text(spent),
        duration_text(allocated),
        duration_text(clamped_remaining(allocated, spent)),
        skip_allocated,
    )
}

/// Whether a work group gets a line of the table: it has time spent.
pub open spec fn is_shown(g: WorkGroup) -> bool {
    g.time_spent.secs != 0
}

/// The lines of the shown work groups, in order.
pub open spec fn body_text(gs: Seq<WorkGroup>, skip_allocated: bool) -> Seq<char>
    decreases gs.len(),
{
    if gs.len() == 0 {
        Seq::empty()
    } else {
        body_text(gs.drop_last(), skip_allocated) + if is_shown(gs.last()) {
            group_row(gs.last(), skip_allocated)
        } else {
            Seq::empty()
        }
    }
}

/// The time spent, summed over the shown work groups.
pub open spec fn shown_spent(gs: Seq<WorkGroup>) -> int
    decreases gs.len(),
{
    if gs.len() == 0 {
        0
    } else {
        shown_spent(gs.drop_last()) + if is_shown(gs.last()) {
            gs.last().time_spent.secs as int
        } else {
            0
        }
    }
}

/// The time allocated, summed over the shown work groups.
pub open spec fn shown_allocated(gs: Seq<WorkGroup>) -> int
    decreases gs.len(),
{
    if gs.len() == 0 {
        0
    } else {
        shown_allocated(gs.drop_last()) + if is_shown(gs.last()) {
            gs.last().time_allocated.secs as int
        } else {
            0
        }
    }
}

pub open spec fn abs(x: int) -> int {
    if x >= 0 {
        x
    } else {
        -x
    }
}

/// The sum of the absolute times spent and allocated over all work groups.
pub open spec fn magnitude(gs: Seq<WorkGroup>) -> int
    decreases gs.len(),
{
    if gs.len() == 0 {
        0
    } else {
        magnitude(gs.drop_last()) + abs(gs.last().time_spent.secs as int) + abs(
            gs.last().time_allocated.secs as int,
        )
    }
}

/// The header line.
pub open spec fn header_text(skip_allocated: bool) -> Seq<char> {
    row_text("group"@, "spent"@, "allocated"@, "remaining"@, skip_allocated)
}

/// The line of totals over the shown work groups.
pub open spec fn totals_text(gs: Seq<WorkGroup>, skip_allocated: bool) -> Seq<char> {
    let spent = shown_spent(gs);
    let allocated = shown_allocated(gs);
    row_text(
        "total"@,
        duration_text(spent),
        duration_text(allocated),
        duration_text(clamped_remaining(allocated, spent)),
        skip_allocated,
    )
}

/// The whole report: header, one line per shown work group, totals.
pub open spec fn report_text(gs: Seq<WorkGroup>, skip_allocated: bool) -> Seq<char> {
    header_text(skip_allocated) + body_text(gs, skip_allocated) + totals_text(gs, skip_allocated)
}

proof fn lemma_magnitude_bounds(gs: Seq<WorkGroup>, n: int)
    requires
        0 <= n <= gs.len(),
    ensures
        abs(shown_spent(gs.take(n))) + abs(shown_allocated(gs.take(n))) <= magnitude(gs.take(n)),
        magnitude(gs.take(n)) <= magnitude(gs),
    decreases gs.len(),
{
    if n < gs.len() {
        assert(gs.drop_last().take(n) =~= gs.take(n));
        lemma_magnitude_bounds(gs.drop_last(), n);
    } else {
        assert(gs.take(n) =~= gs);
        if n > 0 {
            assert(gs.drop_last().take(n - 1) =~= gs.drop_last());
            lemma_magnitude_bounds(gs.drop_last(), n - 1);
        }
    }
}

/// A span written as `<hours> hrs <minutes> mins`.
pub fn format_duration(duration: Duration) -> (r: String)
    ensures
        r@ == duration_text(duration.secs as int),
{
    let mut out = String::new();
    push_int(&mut out, duration.num_hours());
    out.append(" hrs ");
    let minutes = crate::duration::signed_remainder(duration.num_minutes(), 60);
    push_int(&mut out, minutes);
    out.append(" mins");
    out
}

fn push_row(
    out: &mut String,
    label: &str,
    spent: &str,
    allocated: &str,
    remaining: &str,
    skip_allocated: bool,
)
    ensures
        final(out)@ == old(out)@ + row_text(label@, spent@, allocated@, remaining@, skip_allocated),
{
    out.append("| ");
    push_padded(out, label, 20);
    out.append(" | ");
    push_padded(out, spent, 15);
    if !skip_allocated {
        out.append(" | ");
        push_padded(out, allocated, 15);
        out.append(" | ");
        push_padded(out, remaining, 15);
    }
    out.append("\n");
    assert(final(out)@ =~= old(out)@ + row_text(label@, spent@, allocated@, remaining@, skip_allocated));
}

impl WorkGroup {
    /// The tags of the group in ascending order, a space between each two.
    pub fn label(&self) -> (r: String)
        ensures
            r@ == group_label(*self),
    {
        let sorted = sorted_labels(&self.tagset.tags);
        join_labels(&sorted)
    }

    /// The line of the report for this group.
    pub fn row(&self, skip_allocated: bool) -> (r: String)
        requires
            abs(self.time_spent.secs as int) + abs(self.time_allocated.secs as int) <= i64::MAX,
        ensures
            r@ == group_row(*self, skip_allocated),
    {
        let label = self.label();
        let spent = format_duration(self.time_spent);
        let allocated = format_duration(self.time_allocated);
        let remaining = format_duration(self.remaining());
        let mut out = String::new();
        push_row(&mut out, label.as_str(), spent.as_str(), allocated.as_str(), remaining.as_str(), skip_allocated);
        assert(out@ =~= group_row(*self, skip_allocated));
        out
    }
}

/// Renders the report of the work groups: a header, one line for each
/// group with time spent, in order, and a line of totals over those groups.
/// With `skip_allocated`, only the label and time spent columns are shown.
pub fn render_report(workgroups: &Vec<WorkGroup>, skip_allocated: bool) -> (r: String)
    requires
        magnitude(workgroups@) <= i64::MAX,
    ensures
        r@ == report_text(workgroups@, skip_allocated),
{
    let ghost gs = workgroups@;
    let mut out = String::new();
    push_row(&mut out, "group", "spent", "allocated", "remaining", skip_allocated);
    let mut total_spent: i64 = 0;
    let mut total_allocated: i64 = 0;
    let mut i: usize = 0;
    while i < workgroups.len()
        invariant
            gs == workgroups@,
            i <= gs.len(),
            magnitude(gs) <= i64::MAX,
            out@ == header_text(skip_allocated) + body_text(gs.take(i as int), skip_allocated),
            total_spent == shown_spent(gs.take(i as int)),
            total_allocated == shown_allocated(gs.take(i as int)),
        decreases gs.len() - i,
    {
        let g = &workgroups[i];
        proof {
            let t = gs.take(i + 1);
            assert(t.drop_last() =~= gs.take(i as int));
            assert(t.last() == gs[i as int]);
            lemma_magnitude_bounds(gs, i + 1);
            lemma_magnitude_bounds(gs, i as int);
        }
        if g.time_spent.secs != 0 {
            let line = g.row(skip_allocated);
            out.append(line.as_str());
            total_spent = total_spent + g.time_spent.secs;
            total_allocated = total_allocated + g.time_allocated.secs;
        }
        assert(out@ =~= header_text(skip_allocated) + body_text(gs.take(i + 1), skip_allocated));
        i = i + 1;
    }
    proof {
        assert(gs.take(gs.len() as int) =~= gs);
        lemma_magnitude_bounds(gs, gs.len() as int);
    }
    let remaining = if total_allocated > total_spent {
        total_allocated - total_spent
    } else {
        0
    };
    let spent = format_duration(Duration::seconds(total_spent));
    let allocated = format_duration(Duration::seconds(total_allocated));
    let remaining = format_duration(Duration::seconds(remaining));
    push_row(&mut out, "total", spent.as_str(), allocated.as_str(), remaining.as_str(), skip_allocated);
    assert(out@ =~= report_text(gs, skip_allocated));
    out
}

} // verus!
