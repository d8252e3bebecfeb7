use vstd::prelude::*;


use crate::duration::Duration;
use crate::json_model::{field_of, json_field, json_number, label_set_at, labels_at, number_at, JsonModel};
use crate::tagset::labels_from_json;
use crate::tagset::TagSet;
use crate::twentry::TimeWarriorEntry;
use crate::twinput::TimeWarriorInput;

verus! {

pub open spec fn pow10(n: nat) -> nat
    decreases n,
{
    if n == 0 {
        1
    } else {
        10 * pow10((n - 1) as nat)
    }
}

/// The number of seconds in `m * 10^e` hours (negated when not `positive`),
/// rounded toward zero.
pub open spec fn hours_to_seconds(positive: bool, m: u64, e: i16) -> int {
    let scaled = m * 3600;
    let magnitude = if e >= 0 {
        scaled * pow10(e as nat)
    } else {
        scaled / (pow10((-e) as nat) as int)
    };
    if positive {
        magnitude
    } else {
        -magnitude
    }
}

/// `v` held to the range of `i64`.
pub open spec fn saturate(v: int) -> int {
    if v > i64::MAX {
        i64::MAX as int
    } else if v < i64::MIN {
        i64::MIN as int
    } else {
        v
    }
}

proof fn lemma_pow10_mono(a: nat, b: nat)
    requires
        a <= b,
    ensures
        1 <= pow10(a) <= pow10(b),
    decreases b,
{
    if b > 0 {
        if a < b {
            lemma_pow10_mono(a, (b - 1) as nat);
        } else {
            lemma_pow10_mono((a - 1) as nat, (b - 1) as nat);
        }
    }
}

/// The allocation of a work group, given in hours as the decimal
/// `m * 10^e` (negated when not `positive`), converted to whole seconds:
/// rounded toward zero, and held to the range of `i64`.
pub fn allocation_seconds(positive: bool, m: u64, e: i16) -> (r: i64)
    ensures
        r == saturate(hours_to_seconds(positive, m, e)),
{
    let scaled: u128 = m as u128 * 3600;
    let limit: u128 = 9223372036854775808;
    let magnitude: u128;
    if e >= 0 {
        let mut acc: u128 = scaled;
        let mut k: i16 = 0;
        assert(pow10(0) == 1);
        assert(pow10(k as nat) == 1);
        assert(acc == scaled * pow10(k as nat));
        while k < e && acc < limit
            invariant
                0 <= k <= e,
                limit == 9223372036854775808,
                acc == scaled * pow10(k as nat),
            decreases e - k,
        {
            assert(acc < limit);
            assert(pow10((k + 1) as nat) == 10 * pow10(k as nat));
            assert(acc * 10 == scaled * pow10((k + 1) as nat)) by (nonlinear_arith)
                requires
                    acc == scaled * pow10(k as nat),
                    pow10((k + 1) as nat) == 10 * pow10(k as nat),
            ;
            acc = acc * 10;
            k = k + 1;
        }
        proof {
            lemma_pow10_mono(k as nat, e as nat);
            assert(scaled * pow10(k as nat) <= scaled * pow10(e as nat)) by (nonlinear_arith)
                requires
                    pow10(k as nat) <= pow10(e as nat),
            ;
        }
        magnitude = acc;
    } else {
        let d: i32 = 0i32 - (e as i32);
        if d >= 24 {
            proof {
                reveal_with_fuel(pow10, 25);
                lemma_pow10_mono(24, d as nat);
                assert(scaled < pow10(24));
                assert(scaled as int / (pow10(d as nat) as int) == 0) by (nonlinear_arith)
                    requires
                        scaled < pow10(d as nat),
                ;
            }
            magnitude = 0;
        } else {
            let mut div: u128 = 1;
            let mut k: i32 = 0;
            while k < d
                invariant
                    0 <= k <= d < 24,
                    div == pow10(k as nat),
                    div >= 1,
                decreases d - k,
            {
                proof {
                    reveal_with_fuel(pow10, 25);
                    lemma_pow10_mono(k as nat, 23);
                    assert(pow10(23) == 100000000000000000000000nat);
                }
                div = div * 10;
                k = k + 1;
            }
            magnitude = scaled / div;
        }
    }
    let ghost exact: int = if e >= 0 {
        scaled * pow10(e as nat)
    } else {
        scaled as int / (pow10((-e) as nat) as int)
    };
    assert(magnitude >= limit ==> exact >= limit);
    assert(magnitude < limit ==> magnitude == exact);
    if positive {
        if magnitude >= limit {
            i64::MAX
        } else {
            magnitude as i64
        }
    } else {
        if magnitude >= limit {
            i64::MIN
        } else {
            0i64 - (magnitude as i64)
        }
    }
}

/// A budget bucket: the tags an entry must carry to be counted in it, the
/// time allocated to it, and the time counted in it so far.
pub struct WorkGroup {
    pub tagset: TagSet,
    pub time_allocated: Duration,
    pub time_spent: Duration,
}

/// Whether a JSON value is a work group record: an object with an array
/// of strings under `tags` and a number under `allocation`.
pub open spec fn record_valid(m: JsonModel) -> bool {
    labels_at(field_of(m, "tags"@)) && number_at(field_of(m, "allocation"@)) is Some
}

/// Whether `g` is the work group that the record `m` declares, with nothing spent.
pub open spec fn record_declares(m: JsonModel, g: WorkGroup) -> bool {
    let (p, mantissa, e) = number_at(field_of(m, "allocation"@))->Some_0;
    &&& g.tagset.wf()
    &&& g.tagset.tag_set() == label_set_at(field_of(m, "tags"@))
    &&& g.time_allocated.secs == saturate(hours_to_seconds(p, mantissa, e))
    &&& g.time_spent.secs == 0
}

/// Whether `g` takes entry `e`: `e` carries every tag that `g` requires.
pub open spec fn group_matches(g: WorkGroup, e: TimeWarriorEntry) -> bool {
    g.tagset.tag_set().subset_of(e.tagset.tag_set())
}

/// The time left of a budget: `allocated - spent`, and zero when that is negative.
pub open spec fn clamped_remaining(allocated: int, spent: int) -> int {
    if allocated - spent > 0 {
        allocated - spent
    } else {
        0
    }
}

impl WorkGroup {
    /// Builds a work group from its tag list and its allocation in hours,
    /// given as the parts of a decimal number (see `allocation_seconds`).
    /// Nothing is spent yet. The group is refused when the tag list is
    /// missing or holds a member that is not a label, or the allocation is missing.
    pub fn from_parts(labels: Option<Vec<Option<String>>>, allocation: Option<(bool, u64, i16)>) -> (r:
        Option<WorkGroup>)
        ensures
            r is Some <==> TagSet::labels_present(labels) && allocation is Some,
            r is Some ==> {
                let g = r->Some_0;
                let (p, m, e) = allocation->Some_0;
                &&& g.tagset.wf()
                &&& g.tagset.tag_set() == TagSet::label_set(labels)
                &&& g.time_allocated.secs == saturate(hours_to_seconds(p, m, e))
                &&& g.time_spent.secs == 0
            },
    {
        let tagset = match TagSet::from_members(labels) {
            Some(t) => t,
            None => return None,
        };
        match allocation {
            Some((p, m, e)) => Some(
                WorkGroup {
                    tagset,
                    time_allocated: Duration::seconds(allocation_seconds(p, m, e)),
                    time_spent: Duration::zero(),
                },
            ),
            None => None,
        }
    }

    /// Reads a work group from a JSON object with a tag list under `tags` and
    /// a number of hours under `allocation`; `None` when it is not such a record.
    pub fn parse_from_json_value(jv: &JsonModel) -> (r: Option<WorkGroup>)
        ensures
            r is Some <==> record_valid(*jv),
            r is Some ==> record_declares(*jv, r->Some_0),
    {
        let labels = labels_from_json(json_field(jv, "tags"));
        let allocation = json_number(json_field(jv, "allocation"));
        Self::from_parts(labels, allocation)
    }

    /// Whether the entry carries every tag that this group requires.
    pub fn matches(&self, twe: &TimeWarriorEntry) -> (r: bool)
        ensures
            r == group_matches(*self, *twe),
    {
        self.tagset.has_all_tags_of(&twe.tagset)
    }

    /// Counts the entry's time in this group.
    pub fn process(&mut self, twe: &TimeWarriorEntry)
        requires
            twe.wf(),
            i64::MIN <= old(self).time_spent.secs + twe.span() <= i64::MAX,
        ensures
            final(self).time_spent.secs == old(self).time_spent.secs + twe.span(),
            final(self).tagset == old(self).tagset,
            final(self).time_allocated == old(self).time_allocated,
    {
        let d = twe.duration();
        self.time_spent = Duration::seconds(self.time_spent.secs + d.secs);
    }

    /// The time left of the budget, never negative.
    pub fn remaining(&self) -> (r: Duration)
        requires
            self.time_allocated.secs - self.time_spent.secs <= i64::MAX,
        ensures
            r.secs == clamped_remaining(self.time_allocated.secs as int, self.time_spent.secs as int),
    {
        if self.time_allocated.secs > self.time_spent.secs {
            Duration::seconds(self.time_allocated.secs - self.time_spent.secs)
        } else {
            Duration::zero()
        }
    }
}

/// The index of the first group from `i` on that takes `e`, or -1 when none does.
pub open spec fn first_match_from(gs: Seq<WorkGroup>, e: TimeWarriorEntry, i: nat) -> int
    decreases gs.len() - i,
{
    if i >= gs.len() {
        -1
    } else if group_matches(gs[i as int], e) {
        i as int
    } else {
        first_match_from(gs, e, i + 1)
    }
}

/// The index of the group that an entry is attributed to: the first that
/// takes it, in declaration order; -1 when none does.
pub open spec fn first_match(gs: Seq<WorkGroup>, e: TimeWarriorEntry) -> int {
    first_match_from(gs, e, 0)
}

/// The time attributed to group `g` out of entries `es`: the sum of the
/// spans of the entries whose first match is `g`.
pub open spec fn attributed(gs: Seq<WorkGroup>, es: Seq<TimeWarriorEntry>, g: int) -> int
    decreases es.len(),
{
    if es.len() == 0 {
        0
    } else {
        attributed(gs, es.drop_last(), g) + if first_match(gs, es.last()) == g {
            es.last().span()
        } else {
            0
        }
    }
}

/// The sum of the absolute spans of `es`.
pub open spec fn abs_total(es: Seq<TimeWarriorEntry>) -> int
    decreases es.len(),
{
    if es.len() == 0 {
        0
    } else {
        abs_total(es.drop_last()) + if es.last().span() >= 0 {
            es.last().span()
        } else {
            -es.last().span()
        }
    }
}

/// Whether `a` and `b` hold the same groups but for the time spent.
pub open spec fn same_budgets(a: Seq<WorkGroup>, b: Seq<WorkGroup>) -> bool {
    &&& a.len() == b.len()
    &&& forall|j: int|
        0 <= j < a.len() ==> (#[trigger] a[j]).tagset == b[j].tagset && a[j].time_allocated
            == b[j].time_allocated
}

proof fn lemma_attributed_bounded(gs: Seq<WorkGroup>, es: Seq<TimeWarriorEntry>, g: int)
    ensures
        -abs_total(es) <= attributed(gs, es, g) <= abs_total(es),
        abs_total(es) >= 0,
    decreases es.len(),
{
    if es.len() > 0 {
        lemma_attributed_bounded(gs, es.drop_last(), g);
    }
}

proof fn lemma_first_match_same_budgets(a: Seq<WorkGroup>, b: Seq<WorkGroup>, e: TimeWarriorEntry, i: nat)
    requires
        same_budgets(a, b),
    ensures
        first_match_from(a, e, i) == first_match_from(b, e, i),
    decreases a.len() - i,
{
    if i < a.len() {
        assert(a[i as int].tagset == b[i as int].tagset);
        lemma_first_match_same_budgets(a, b, e, i + 1);
    }
}

proof fn lemma_first_match_props(gs: Seq<WorkGroup>, e: TimeWarriorEntry, i: nat)
    ensures
        first_match_from(gs, e, i) == -1 || (i <= first_match_from(gs, e, i) < gs.len()),
        first_match_from(gs, e, i) >= 0 ==> group_matches(gs[first_match_from(gs, e, i)], e),
        forall|j: int|
            i <= j < gs.len() && (first_match_from(gs, e, i) == -1 || j < first_match_from(gs, e, i))
                ==> !group_matches(#[trigger] gs[j], e),
    decreases gs.len() - i,
{
    if i < gs.len() && !group_matches(gs[i as int], e) {
        lemma_first_match_props(gs, e, i + 1);
    }
}

/// Attributes each entry of the input, in order, to the first work group
/// that takes it, and counts its time there. An entry that no group takes is
/// left out.
pub fn process(twinput: &TimeWarriorInput, workgroups: &mut Vec<WorkGroup>)
    requires
        forall|i: int| 0 <= i < twinput.twentries@.len() ==> (#[trigger] twinput.twentries@[i]).wf(),
        forall|j: int|
            0 <= j < old(workgroups)@.len() ==> {
                let s = (#[trigger] old(workgroups)@[j]).time_spent.secs;
                (if s >= 0 { s as int } else { -s }) + abs_total(twinput.twentries@) <= i64::MAX
            },
    ensures
        same_budgets(final(workgroups)@, old(workgroups)@),
        forall|j: int|
            0 <= j < final(workgroups)@.len() ==> (#[trigger] final(workgroups)@[j]).time_spent.secs
                == old(workgroups)@[j].time_spent.secs + attributed(
                old(workgroups)@,
                twinput.twentries@,
                j,
            ),
{
    let ghost gs0 = workgroups@;
    let ghost es = twinput.twentries@;
    let mut i: usize = 0;
    while i < twinput.twentries.len()
        invariant
            i <= es.len(),
            es == twinput.twentries@,
            forall|k: int| 0 <= k < es.len() ==> (#[trigger] es[k]).wf(),
            gs0 == old(workgroups)@,
            forall|j: int|
                0 <= j < gs0.len() ==> {
                    let s = (#[trigger] gs0[j]).time_spent.secs;
                    (if s >= 0 { s as int } else { -s }) + abs_total(es) <= i64::MAX
                },
            same_budgets(workgroups@, gs0),
            forall|j: int|
                0 <= j < workgroups@.len() ==> (#[trigger] workgroups@[j]).time_spent.secs
                    == gs0[j].time_spent.secs + attributed(gs0, es.take(i as int), j),
        decreases es.len() - i,
    {
        let twe = &twinput.twentries[i];
        let ghost before = workgroups@;
        proof {
            assert(es.take(i + 1).drop_last() =~= es.take(i as int));
            assert(es.take(i + 1).last() == es[i as int]);
            lemma_abs_total_prefix(es, i + 1);
            assert forall|j: int| 0 <= j < gs0.len() implies -abs_total(es) <= #[trigger] attributed(
                gs0,
                es.take(i + 1),
                j,
            ) <= abs_total(es) by {
                lemma_attributed_bounded(gs0, es.take(i + 1), j);
            }
        }
        let mut j: usize = 0;
        while j < workgroups.len() && !workgroups[j].matches(twe)
            invariant
                j <= workgroups@.len(),
                workgroups@ == before,
                forall|k: int| 0 <= k < j ==> !group_matches(#[trigger] before[k], *twe),
            decreases workgroups@.len() - j,
        {
            j = j + 1;
        }
        proof {
            lemma_first_match_same_budgets(before, gs0, *twe, 0);
            lemma_first_match_props(before, *twe, 0);
            lemma_first_match_props(gs0, *twe, 0);
        }
        if j < workgroups.len() {
            proof {
                assert(group_matches(before[j as int], *twe));
                let fm = first_match(before, *twe);
                if fm == -1 || fm > j {
                    assert(!group_matches(before[j as int], *twe));
                }
                if 0 <= fm < j {
                    assert(!group_matches(before[fm], *twe));
                }
                assert(first_match(gs0, *twe) == j as int);
                let s = gs0[j as int].time_spent.secs;
                assert((if s >= 0 { s as int } else { -s }) + abs_total(es) <= i64::MAX);
                assert(before[j as int].time_spent.secs == gs0[j as int].time_spent.secs
                    + attributed(gs0, es.take(i as int), j as int));
                assert(-abs_total(es) <= attributed(gs0, es.take(i + 1), j as int) <= abs_total(es));
            }
            workgroups[j].process(twe);
        } else {
            proof {
                let fm = first_match(before, *twe);
                if fm != -1 {
                    assert(!group_matches(before[fm], *twe));
                }
            }
        }
        i = i + 1;
    }
    assert(es.take(es.len() as int) =~= es);
}

proof fn lemma_abs_total_prefix(es: Seq<TimeWarriorEntry>, n: int)
    requires
        0 <= n <= es.len(),
    ensures
        0 <= abs_total(es.take(n)) <= abs_total(es),
    decreases es.len(),
{
    if n < es.len() {
        assert(es.drop_last().take(n) =~= es.take(n));
        lemma_abs_total_prefix(es.drop_last(), n);
    } else {
        assert(es.take(n) =~= es);
    }
    lemma_attributed_bounded(Seq::<WorkGroup>::empty(), es.take(n), 0);
}

} // verus!
