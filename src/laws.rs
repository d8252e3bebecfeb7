use vstd::prelude::*;

use crate::report::{duration_text, group_row, group_label, report_text, row_text};
use crate::twentry::TimeWarriorEntry;
use crate::workgroup::{attributed, clamped_remaining, first_match, group_matches, same_budgets, WorkGroup};

verus! {

/// The sum of the spans of the entries.
pub open spec fn sum_spans(es: Seq<TimeWarriorEntry>) -> int
    decreases es.len(),
{
    if es.len() == 0 {
        0
    } else {
        sum_spans(es.drop_last()) + es.last().span()
    }
}

/// The entries of `es` that are attributed to group `g`, in order.
pub open spec fn entries_of(gs: Seq<WorkGroup>, es: Seq<TimeWarriorEntry>, g: int) -> Seq<TimeWarriorEntry> {
    es.filter(|e: TimeWarriorEntry| first_match(gs, e) == g)
}

/// The time attributed to a group is the sum of the spans of exactly the
/// entries attributed to it.
pub proof fn law_attributed_is_sum_of_own_entries(gs: Seq<WorkGroup>, es: Seq<TimeWarriorEntry>, g: int)
    ensures
        attributed(gs, es, g) == sum_spans(entries_of(gs, es, g)),
    decreases es.len(),
{
    if es.len() > 0 {
        law_attributed_is_sum_of_own_entries(gs, es.drop_last(), g);
        let pred = |e: TimeWarriorEntry| first_match(gs, e) == g;
        reveal(Seq::filter);
        let rest = es.drop_last().filter(pred);
        assert(entries_of(gs, es.drop_last(), g) == rest);
        assert(entries_of(gs, es, g) == es.filter(pred));
        if first_match(gs, es.last()) == g {
            assert(es.filter(pred) == rest.push(es.last()));
            assert(rest.push(es.last()).drop_last() =~= rest);
            assert(rest.push(es.last()).last() == es.last());
        } else {
            assert(es.filter(pred) == rest);
        }
    }
}

/// When every entry is attributed to group `g`, the time attributed to `g` is
/// the sum of their spans, and no other group is attributed any time.
pub proof fn law_spent_is_sum_of_matched(gs: Seq<WorkGroup>, es: Seq<TimeWarriorEntry>, g: int)
    requires
        0 <= g < gs.len(),
        forall|i: int| 0 <= i < es.len() ==> first_match(gs, #[trigger] es[i]) == g,
    ensures
        attributed(gs, es, g) == sum_spans(es),
        forall|h: int| h != g ==> #[trigger] attributed(gs, es, h) == 0,
    decreases es.len(),
{
    if es.len() > 0 {
        let rest = es.drop_last();
        assert forall|i: int| 0 <= i < rest.len() implies first_match(gs, #[trigger] rest[i]) == g by {
            assert(rest[i] == es[i]);
        }
        assert(first_match(gs, es[es.len() - 1]) == g);
        assert(es.last() == es[es.len() - 1]);
        law_spent_is_sum_of_matched(gs, rest, g);
        assert forall|h: int| h != g implies #[trigger] attributed(gs, es, h) == 0 by {
            assert(attributed(gs, rest, h) == 0);
        }
    }
}

/// An entry is attributed to the earliest declared group that takes it: when
/// group `a` is declared before group `b`, requires no more tags than `b`,
/// and `b` takes the entry, then the entry goes to `a` or to a group declared
/// before `a`, and never to `b`.
pub proof fn law_first_match_wins(gs: Seq<WorkGroup>, e: TimeWarriorEntry, a: int, b: int)
    requires
        0 <= a < b < gs.len(),
        gs[a].tagset.tag_set().subset_of(gs[b].tagset.tag_set()),
        gs[b].tagset.tag_set().subset_of(e.tagset.tag_set()),
    ensures
        0 <= first_match(gs, e) <= a,
        attributed(gs, seq![e], a) == if first_match(gs, e) == a { e.span() } else { 0 },
        attributed(gs, seq![e], b) == 0,
{
    assert(group_matches(gs[a], e));
    lemma_first_match_at_most(gs, e, a, 0);
    assert(seq![e].drop_last() =~= Seq::<TimeWarriorEntry>::empty());
    assert(seq![e].last() == e);
    assert(attributed(gs, seq![e], a) == attributed(gs, Seq::<TimeWarriorEntry>::empty(), a) + if first_match(gs, e) == a { e.span() } else { 0 });
    assert(attributed(gs, seq![e], b) == attributed(gs, Seq::<TimeWarriorEntry>::empty(), b) + if first_match(gs, e) == b { e.span() } else { 0 });
}

/// Stated over the groups `w` that `process` leaves after the single entry
/// `e`: group `b` gains nothing, and group `a` gains the entry's span when no
/// group declared before it takes the entry.
pub proof fn law_first_match_wins_in_process(
    gs: Seq<WorkGroup>,
    e: TimeWarriorEntry,
    a: int,
    b: int,
    w: Seq<WorkGroup>,
)
    requires
        0 <= a < b < gs.len(),
        gs[a].tagset.tag_set().subset_of(gs[b].tagset.tag_set()),
        gs[b].tagset.tag_set().subset_of(e.tagset.tag_set()),
        same_budgets(w, gs),
        forall|j: int|
            0 <= j < w.len() ==> (#[trigger] w[j]).time_spent.secs == gs[j].time_spent.secs + attributed(
                gs,
                seq![e],
                j,
            ),
    ensures
        w[b].time_spent == gs[b].time_spent,
        (forall|j: int| 0 <= j < a ==> !group_matches(#[trigger] gs[j], e)) ==> w[a].time_spent.secs
            == gs[a].time_spent.secs + e.span(),
{
    law_first_match_wins(gs, e, a, b);
    if forall|j: int| 0 <= j < a ==> !group_matches(#[trigger] gs[j], e) {
        lemma_first_match_skips(gs, e, a, 0);
    }
}

proof fn lemma_first_match_skips(gs: Seq<WorkGroup>, e: TimeWarriorEntry, a: int, i: nat)
    requires
        0 <= i <= a < gs.len(),
        group_matches(gs[a], e),
        forall|j: int| 0 <= j < a ==> !group_matches(#[trigger] gs[j], e),
    ensures
        crate::workgroup::first_match_from(gs, e, i) == a,
    decreases a - i,
{
    if i < a {
        lemma_first_match_skips(gs, e, a, i + 1);
    }
}

/// Accruing entries one by one into a group that starts with nothing spent
/// leaves the sum of their spans: `spent[k]` is the time spent after the
/// first `k` entries, each step adding one entry's span.
pub proof fn law_accrual_is_sum(es: Seq<TimeWarriorEntry>, spent: Seq<int>)
    requires
        spent.len() == es.len() + 1,
        spent[0] == 0,
        forall|k: int| 0 <= k < es.len() ==> #[trigger] spent[k + 1] == spent[k] + es[k].span(),
    ensures
        spent[es.len() as int] == sum_spans(es),
    decreases es.len(),
{
    if es.len() > 0 {
        let n = es.len() - 1;
        let shorter = es.drop_last();
        let prefix = spent.drop_last();
        assert forall|k: int| 0 <= k < shorter.len() implies #[trigger] prefix[k + 1] == prefix[k] + shorter[k].span() by {
            assert(spent[k + 1] == spent[k] + es[k].span());
        }
        law_accrual_is_sum(shorter, prefix);
        assert(spent[n + 1] == spent[n] + es[n].span());
    }
}

proof fn lemma_first_match_at_most(gs: Seq<WorkGroup>, e: TimeWarriorEntry, a: int, i: nat)
    requires
        0 <= i <= a < gs.len(),
        group_matches(gs[a], e),
    ensures
        i <= crate::workgroup::first_match_from(gs, e, i) <= a,
    decreases a - i,
{
    if !group_matches(gs[i as int], e) {
        lemma_first_match_at_most(gs, e, a, i + 1);
    }
}

/// An entry that no group takes adds nothing to any group.
pub proof fn law_unmatched_entry_adds_nothing(gs: Seq<WorkGroup>, es: Seq<TimeWarriorEntry>, e: TimeWarriorEntry)
    requires
        forall|j: int| 0 <= j < gs.len() ==> !group_matches(#[trigger] gs[j], e),
    ensures
        first_match(gs, e) == -1,
        forall|g: int| 0 <= g ==> #[trigger] attributed(gs, es.push(e), g) == attributed(gs, es, g),
{
    lemma_no_match_from(gs, e, 0);
    assert(es.push(e).drop_last() =~= es);
    assert(es.push(e).last() == e);
    assert forall|g: int| 0 <= g implies #[trigger] attributed(gs, es.push(e), g) == attributed(gs, es, g) by {
        assert(attributed(gs, es.push(e), g) == attributed(gs, es, g) + if first_match(gs, e) == g { e.span() } else { 0 });
    }
}

/// An entry that no group takes adds nothing to any group, wherever it
/// stands among the entries.
pub proof fn law_unmatched_entry_adds_nothing_anywhere(
    gs: Seq<WorkGroup>,
    before: Seq<TimeWarriorEntry>,
    after: Seq<TimeWarriorEntry>,
    e: TimeWarriorEntry,
)
    requires
        forall|j: int| 0 <= j < gs.len() ==> !group_matches(#[trigger] gs[j], e),
    ensures
        forall|g: int| 0 <= g ==> #[trigger] attributed(gs, before + seq![e] + after, g) == attributed(gs, before + after, g),
    decreases after.len(),
{
    if after.len() == 0 {
        law_unmatched_entry_adds_nothing(gs, before, e);
        assert(before + seq![e] + after =~= before.push(e));
        assert(before + after =~= before);
    } else {
        let shorter = after.drop_last();
        law_unmatched_entry_adds_nothing_anywhere(gs, before, shorter, e);
        assert((before + seq![e] + after).drop_last() =~= before + seq![e] + shorter);
        assert((before + after).drop_last() =~= before + shorter);
        assert((before + seq![e] + after).last() == after.last());
        assert((before + after).last() == after.last());
        assert forall|g: int| 0 <= g implies #[trigger] attributed(gs, before + seq![e] + after, g) == attributed(gs, before + after, g) by {
            assert(attributed(gs, before + seq![e] + shorter, g) == attributed(gs, before + shorter, g));
        }
    }
}

/// Two runs of `process` from the same groups, over entries that differ
/// only by an entry that no group takes, leave the same groups, and so the
/// same report: `w1` and `w2` are the groups that `process` leaves.
pub proof fn law_unmatched_entry_leaves_report_unchanged(
    gs: Seq<WorkGroup>,
    before: Seq<TimeWarriorEntry>,
    after: Seq<TimeWarriorEntry>,
    e: TimeWarriorEntry,
    w1: Seq<WorkGroup>,
    w2: Seq<WorkGroup>,
    skip_allocated: bool,
)
    requires
        forall|j: int| 0 <= j < gs.len() ==> !group_matches(#[trigger] gs[j], e),
        same_budgets(w1, gs),
        forall|j: int|
            0 <= j < w1.len() ==> (#[trigger] w1[j]).time_spent.secs == gs[j].time_spent.secs + attributed(
                gs,
                before + after,
                j,
            ),
        same_budgets(w2, gs),
        forall|j: int|
            0 <= j < w2.len() ==> (#[trigger] w2[j]).time_spent.secs == gs[j].time_spent.secs + attributed(
                gs,
                before + seq![e] + after,
                j,
            ),
    ensures
        w1 == w2,
        report_text(w1, skip_allocated) == report_text(w2, skip_allocated),
{
    law_unmatched_entry_adds_nothing_anywhere(gs, before, after, e);
    assert forall|j: int| 0 <= j < w1.len() implies w1[j] == w2[j] by {
        assert(attributed(gs, before + seq![e] + after, j) == attributed(gs, before + after, j));
        assert(w1[j].tagset == gs[j].tagset && w2[j].tagset == gs[j].tagset);
        assert(w1[j].time_spent == w2[j].time_spent);
    }
    assert(w1 =~= w2);
}

proof fn lemma_no_match_from(gs: Seq<WorkGroup>, e: TimeWarriorEntry, i: nat)
    requires
        forall|j: int| 0 <= j < gs.len() ==> !group_matches(#[trigger] gs[j], e),
    ensures
        crate::workgroup::first_match_from(gs, e, i) == -1,
    decreases gs.len() - i,
{
    if i < gs.len() {
        lemma_no_match_from(gs, e, i + 1);
    }
}

/// Rendering depends on the work groups alone: the same list renders to the same text.
pub proof fn law_rendering_is_repeatable(a: Seq<WorkGroup>, b: Seq<WorkGroup>, skip_allocated: bool)
    requires
        a == b,
    ensures
        report_text(a, skip_allocated) == report_text(b, skip_allocated),
{
}

/// A group that has spent at least its allocation shows `0 hrs 0 mins` remaining, never a negative time.
pub proof fn law_overspent_shows_zero_remaining(g: WorkGroup)
    requires
        g.time_spent.secs >= g.time_allocated.secs,
    ensures
        clamped_remaining(g.time_allocated.secs as int, g.time_spent.secs as int) == 0,
        duration_text(0) == "0 hrs 0 mins"@,
        group_row(g, false) == row_text(
            group_label(g),
            duration_text(g.time_spent.secs as int),
            duration_text(g.time_allocated.secs as int),
            "0 hrs 0 mins"@,
            false,
        ),
{
    reveal_strlit("0 hrs 0 mins");
    reveal_strlit(" hrs ");
    reveal_strlit(" mins");
    assert(crate::text::dec_int(0) =~= seq!['0']);
    assert(duration_text(0) =~= "0 hrs 0 mins"@);
}

} // verus!
