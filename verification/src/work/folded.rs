//! Totals of the time that regions took, and their folded text.
//!
//! Samples are summed under a key, the sums are ordered by time, longest
//! first, and written one per line in the folded format that flame graph
//! tools read: the stack with `;` between its regions, a space, and the
//! time in microseconds.

use vstd::prelude::*;
use vstd::string::*;
use vstd::seq_lib::to_multiset_insert;
use crate::keys::digits::decimal_digits;
use crate::keys::names::printable_name;
use crate::text::str_eq;
use crate::work::{ProfileSample, RegionStack, SampleView, region_names, sample_views};

verus! {

/// The time and the number of the samples under one key.
pub struct RegionTotal {
    pub name: String,
    pub time_us: u64,
    pub calls: usize,
}

/// The mathematical value of a total.
pub struct TotalView {
    pub name: Seq<char>,
    pub time_us: u64,
    pub calls: usize,
}

impl View for RegionTotal {
    type V = TotalView;

    open spec fn view(&self) -> TotalView {
        TotalView { name: self.name@, time_us: self.time_us, calls: self.calls }
    }
}

/// The values of a sequence of totals.
pub open spec fn total_views(totals: Seq<RegionTotal>) -> Seq<TotalView> {
    totals.map_values(|t: RegionTotal| t@)
}

/// The first index from `from` on whose total is named `name`, or the
/// length where there is none.
pub open spec fn first_named(totals: Seq<TotalView>, name: Seq<char>, from: int) -> int
    decreases totals.len() - from,
{
    if from < 0 || from >= totals.len() {
        totals.len() as int
    } else if totals[from].name == name {
        from
    } else {
        first_named(totals, name, from + 1)
    }
}

/// The sum of two times; it stops at `u64::MAX`.
pub open spec fn add_us(a: u64, b: u64) -> u64 {
    if a + b > u64::MAX {
        u64::MAX
    } else {
        (a + b) as u64
    }
}

/// One more call; the count stops at `usize::MAX`.
pub open spec fn one_more(calls: usize) -> usize {
    if calls == usize::MAX {
        calls
    } else {
        (calls + 1) as usize
    }
}

/// The totals after one more sample of `duration_us` under `name`: the
/// total of that name grows, or a new one is put behind the others.
pub open spec fn add_time(totals: Seq<TotalView>, name: Seq<char>, duration_us: u64) -> Seq<
    TotalView,
> {
    let i = first_named(totals, name, 0);
    if i < totals.len() {
        totals.update(
            i,
            TotalView {
                name,
                time_us: add_us(totals[i].time_us, duration_us),
                calls: one_more(totals[i].calls),
            },
        )
    } else {
        totals.push(TotalView { name, time_us: duration_us, calls: 1 })
    }
}

/// Whether no name occurs twice among the totals: each name has one total,
/// as each key of a map has one value.
pub open spec fn names_distinct(totals: Seq<TotalView>) -> bool {
    forall|i: int, j: int|
        0 <= i < j < totals.len() ==> (#[trigger] totals[i]).name != (#[trigger] totals[j]).name
}

/// Whether some total is named `name`.
pub open spec fn has_name(totals: Seq<TotalView>, name: Seq<char>) -> bool {
    exists|i: int| 0 <= i < totals.len() && (#[trigger] totals[i]).name == name
}

/// Where the first total of a name lies: at or behind `from`, behind
/// totals of other names only, and under that name.
pub proof fn lemma_first_named(totals: Seq<TotalView>, name: Seq<char>, from: int)
    requires
        0 <= from <= totals.len(),
    ensures
        from <= first_named(totals, name, from) <= totals.len(),
        forall|k: int|
            from <= k < first_named(totals, name, from) ==> (#[trigger] totals[k]).name != name,
        first_named(totals, name, from) < totals.len() ==> totals[first_named(
            totals,
            name,
            from,
        )].name == name,
    decreases totals.len() - from,
{
    if from < totals.len() && totals[from].name != name {
        lemma_first_named(totals, name, from + 1);
    }
}

/// Adding a sample keeps one total for each name: the names that were
/// there stay, each once, the sample's name is among them afterwards, and
/// no other name comes in.
pub proof fn law_add_time_keeps_one_total_per_name(
    totals: Seq<TotalView>,
    name: Seq<char>,
    duration_us: u64,
)
    requires
        names_distinct(totals),
    ensures
        names_distinct(add_time(totals, name, duration_us)),
        has_name(add_time(totals, name, duration_us), name),
        forall|other: Seq<char>|
            #[trigger] has_name(add_time(totals, name, duration_us), other) <==> (other == name
                || has_name(totals, other)),
{
    let after = add_time(totals, name, duration_us);
    let i = first_named(totals, name, 0);
    lemma_first_named(totals, name, 0);
    if i < totals.len() {
        assert(after.len() == totals.len());
        assert forall|k: int| 0 <= k < after.len() implies (#[trigger] after[k]).name
            == totals[k].name by {}
        assert(after[i].name == name);
        assert forall|other: Seq<char>| #[trigger]
            has_name(after, other) <==> (other == name || has_name(totals, other)) by {
            if has_name(after, other) {
                let k = choose|k: int| 0 <= k < after.len() && (#[trigger] after[k]).name == other;
                assert(totals[k].name == other);
            }
            if has_name(totals, other) {
                let k = choose|k: int|
                    0 <= k < totals.len() && (#[trigger] totals[k]).name == other;
                assert(after[k].name == other);
            }
            if other == name {
                assert(after[i].name == other);
            }
        }
    } else {
        let last = totals.len() as int;
        assert(after.len() == last + 1);
        assert(after[last].name == name);
        assert forall|k: int| 0 <= k < last implies (#[trigger] after[k]) == totals[k] by {}
        assert forall|other: Seq<char>| #[trigger]
            has_name(after, other) <==> (other == name || has_name(totals, other)) by {
            if has_name(after, other) {
                let k = choose|k: int| 0 <= k < after.len() && (#[trigger] after[k]).name == other;
                if k < last {
                    assert(totals[k].name == other);
                }
            }
            if has_name(totals, other) {
                let k = choose|k: int|
                    0 <= k < totals.len() && (#[trigger] totals[k]).name == other;
                assert(after[k].name == other);
            }
            if other == name {
                assert(after[last].name == other);
            }
        }
    }
}

/// The key of a stack in the folded format: its regions, outermost first,
/// with `;` between them.
pub open spec fn folded_key(names: Seq<Seq<char>>) -> Seq<char>
    decreases names.len(),
{
    if names.len() == 0 {
        Seq::empty()
    } else if names.len() == 1 {
        names[0]
    } else {
        folded_key(names.drop_last()) + ";"@ + names.last()
    }
}

/// The totals of the samples by their whole stack, in the order in which
/// the stacks first occur. Samples without a region are left out.
pub open spec fn stack_totals(samples: Seq<SampleView>) -> Seq<TotalView>
    decreases samples.len(),
{
    if samples.len() == 0 {
        Seq::empty()
    } else {
        let rest = stack_totals(samples.drop_last());
        let s = samples.last();
        if s.stack.len() == 0 {
            rest
        } else {
            add_time(rest, folded_key(s.stack), s.duration_us)
        }
    }
}

/// The totals of the samples by their innermost region, in the order in
/// which the regions first occur. Samples without a region are left out.
pub open spec fn leaf_totals(samples: Seq<SampleView>) -> Seq<TotalView>
    decreases samples.len(),
{
    if samples.len() == 0 {
        Seq::empty()
    } else {
        let rest = leaf_totals(samples.drop_last());
        let s = samples.last();
        if s.stack.len() == 0 {
            rest
        } else {
            add_time(rest, s.stack.last(), s.duration_us)
        }
    }
}

/// The totals by stack hold one total for each stack: no key occurs
/// twice, and the key of every sample with a region has its total.
pub proof fn law_stack_totals_have_one_total_per_stack(samples: Seq<SampleView>)
    ensures
        names_distinct(stack_totals(samples)),
        forall|k: int|
            0 <= k < samples.len() && (#[trigger] samples[k]).stack.len() > 0 ==> has_name(
                stack_totals(samples),
                folded_key(samples[k].stack),
            ),
    decreases samples.len(),
{
    if samples.len() > 0 {
        let front = samples.drop_last();
        let s = samples.last();
        let rest = stack_totals(front);
        law_stack_totals_have_one_total_per_stack(front);
        if s.stack.len() > 0 {
            law_add_time_keeps_one_total_per_name(rest, folded_key(s.stack), s.duration_us);
        }
        assert forall|k: int|
            0 <= k < samples.len() && (#[trigger] samples[k]).stack.len() > 0 implies has_name(
            stack_totals(samples),
            folded_key(samples[k].stack),
        ) by {
            if k < samples.len() - 1 {
                assert(samples[k] == front[k]);
                assert(has_name(rest, folded_key(front[k].stack)));
            }
        }
    }
}

/// The totals by region hold one total for each innermost region: no name
/// occurs twice, and the innermost region of every sample has its total.
pub proof fn law_leaf_totals_have_one_total_per_region(samples: Seq<SampleView>)
    ensures
        names_distinct(leaf_totals(samples)),
        forall|k: int|
            0 <= k < samples.len() && (#[trigger] samples[k]).stack.len() > 0 ==> has_name(
                leaf_totals(samples),
                samples[k].stack.last(),
            ),
    decreases samples.len(),
{
    if samples.len() > 0 {
        let front = samples.drop_last();
        let s = samples.last();
        let rest = leaf_totals(front);
        law_leaf_totals_have_one_total_per_region(front);
        if s.stack.len() > 0 {
            law_add_time_keeps_one_total_per_name(rest, s.stack.last(), s.duration_us);
        }
        assert forall|k: int|
            0 <= k < samples.len() && (#[trigger] samples[k]).stack.len() > 0 implies has_name(
            leaf_totals(samples),
            samples[k].stack.last(),
        ) by {
            if k < samples.len() - 1 {
                assert(samples[k] == front[k]);
                assert(has_name(rest, front[k].stack.last()));
            }
        }
    }
}

/// The first index from `from` on whose total took less than `time_us`, or
/// the length where there is none.
pub open spec fn first_shorter(sorted: Seq<TotalView>, time_us: u64, from: int) -> int
    decreases sorted.len() - from,
{
    if from < 0 || from >= sorted.len() {
        sorted.len() as int
    } else if sorted[from].time_us < time_us {
        from
    } else {
        first_shorter(sorted, time_us, from + 1)
    }
}

/// The totals ordered by time, longest first; totals of equal time keep
/// their order.
pub open spec fn sort_by_time(totals: Seq<TotalView>) -> Seq<TotalView>
    decreases totals.len(),
{
    if totals.len() == 0 {
        Seq::empty()
    } else {
        let sorted = sort_by_time(totals.drop_last());
        sorted.insert(first_shorter(sorted, totals.last().time_us, 0), totals.last())
    }
}

/// Whether no total stands before a longer one.
pub open spec fn longest_first(totals: Seq<TotalView>) -> bool {
    forall|i: int, j: int|
        0 <= i < j < totals.len() ==> (#[trigger] totals[i]).time_us >= (
        #[trigger] totals[j]).time_us
}

/// Where the first shorter total lies: at or behind `from`, with no
/// shorter total between `from` and it, and shorter itself.
pub proof fn lemma_first_shorter(sorted: Seq<TotalView>, time_us: u64, from: int)
    requires
        0 <= from <= sorted.len(),
    ensures
        from <= first_shorter(sorted, time_us, from) <= sorted.len(),
        forall|k: int|
            from <= k < first_shorter(sorted, time_us, from) ==> (#[trigger] sorted[k]).time_us
                >= time_us,
        first_shorter(sorted, time_us, from) < sorted.len() ==> sorted[first_shorter(
            sorted,
            time_us,
            from,
        )].time_us < time_us,
    decreases sorted.len() - from,
{
    if from < sorted.len() && sorted[from].time_us >= time_us {
        lemma_first_shorter(sorted, time_us, from + 1);
    }
}

/// The ordered totals are the given totals, each as often as it was given,
/// and no total stands before a longer one.
pub proof fn law_sort_by_time(totals: Seq<TotalView>)
    ensures
        sort_by_time(totals).to_multiset() == totals.to_multiset(),
        sort_by_time(totals).len() == totals.len(),
        longest_first(sort_by_time(totals)),
    decreases totals.len(),
{
    if totals.len() == 0 {
        assert(sort_by_time(totals) =~= totals);
    } else {
        let front = totals.drop_last();
        let e = totals.last();
        let sorted = sort_by_time(front);
        let p = first_shorter(sorted, e.time_us, 0);
        law_sort_by_time(front);
        lemma_first_shorter(sorted, e.time_us, 0);
        to_multiset_insert(sorted, p, e);
        assert(totals =~= front.push(e));
        assert(front.push(e) =~= front.insert(front.len() as int, e));
        to_multiset_insert(front, front.len() as int, e);
        let out = sorted.insert(p, e);
        assert forall|i: int, j: int| 0 <= i < j < out.len() implies (#[trigger] out[i]).time_us >= (
        #[trigger] out[j]).time_us by {
            if i < p && j > p {
                assert(out[i] == sorted[i] && out[j] == sorted[j - 1]);
            } else if i < p && j == p {
                assert(out[i] == sorted[i]);
            } else if i < p {
                assert(out[i] == sorted[i] && out[j] == sorted[j]);
            } else if i == p {
                assert(out[j] == sorted[j - 1]);
                if p < j - 1 {
                    assert(sorted[p].time_us >= sorted[j - 1].time_us);
                }
            } else {
                assert(out[i] == sorted[i - 1] && out[j] == sorted[j - 1]);
            }
        }
    }
}

/// Every total of the ordered totals is one of the given totals.
pub proof fn lemma_sorted_totals_are_given(totals: Seq<TotalView>)
    ensures
        sort_by_time(totals).len() == totals.len(),
        forall|k: int|
            0 <= k < totals.len() ==> exists|m: int|
                0 <= m < totals.len() && #[trigger] sort_by_time(totals)[k] == #[trigger] totals[m],
    decreases totals.len(),
{
    if totals.len() > 0 {
        let front = totals.drop_last();
        let e = totals.last();
        let sorted = sort_by_time(front);
        let p = first_shorter(sorted, e.time_us, 0);
        lemma_sorted_totals_are_given(front);
        lemma_first_shorter(sorted, e.time_us, 0);
        let out = sorted.insert(p, e);
        assert forall|k: int| 0 <= k < totals.len() implies exists|m: int|
            0 <= m < totals.len() && #[trigger] out[k] == #[trigger] totals[m] by {
            if k == p {
                assert(out[k] == totals[totals.len() - 1]);
            } else {
                let k0 = if k < p {
                    k
                } else {
                    k - 1
                };
                assert(out[k] == sorted[k0]);
                let m = choose|m: int| 0 <= m < front.len() && sorted[k0] == #[trigger] front[m];
                assert(out[k] == totals[m]);
            }
        }
    }
}

/// Ordering keeps one total for each name.
pub proof fn law_sort_keeps_one_total_per_name(totals: Seq<TotalView>)
    requires
        names_distinct(totals),
    ensures
        names_distinct(sort_by_time(totals)),
        forall|name: Seq<char>|
            #[trigger] has_name(sort_by_time(totals), name) <==> has_name(totals, name),
    decreases totals.len(),
{
    let out = sort_by_time(totals);
    law_sort_by_time(totals);
    lemma_sorted_totals_are_given(totals);
    if totals.len() > 0 {
        let front = totals.drop_last();
        let e = totals.last();
        let sorted = sort_by_time(front);
        let p = first_shorter(sorted, e.time_us, 0);
        assert(names_distinct(front)) by {
            assert forall|i: int, j: int| 0 <= i < j < front.len() implies (#[trigger] front[i]).name
                != (#[trigger] front[j]).name by {
                assert(front[i] == totals[i] && front[j] == totals[j]);
            }
        }
        law_sort_keeps_one_total_per_name(front);
        lemma_sorted_totals_are_given(front);
        lemma_first_shorter(sorted, e.time_us, 0);
        assert forall|k: int| 0 <= k < sorted.len() implies (#[trigger] sorted[k]).name
            != e.name by {
            let m = choose|m: int| 0 <= m < front.len() && sorted[k] == #[trigger] front[m];
            assert(front[m] == totals[m]);
            assert(totals[m].name != totals[totals.len() - 1].name);
        }
        assert forall|i: int, j: int| 0 <= i < j < out.len() implies (#[trigger] out[i]).name != (
        #[trigger] out[j]).name by {
            let i0 = if i < p {
                i
            } else {
                i - 1
            };
            let j0 = if j < p {
                j
            } else {
                j - 1
            };
            if i == p {
                assert(out[j] == sorted[j0]);
            } else if j == p {
                assert(out[i] == sorted[i0]);
            } else {
                assert(out[i] == sorted[i0] && out[j] == sorted[j0]);
            }
        }
    }
    assert forall|name: Seq<char>| #[trigger] has_name(out, name) <==> has_name(totals, name) by {
        if has_name(out, name) {
            let k = choose|k: int| 0 <= k < out.len() && (#[trigger] out[k]).name == name;
            let m = choose|m: int| 0 <= m < totals.len() && out[k] == #[trigger] totals[m];
            assert(totals[m].name == name);
        }
        if has_name(totals, name) {
            let m = choose|m: int| 0 <= m < totals.len() && (#[trigger] totals[m]).name == name;
            vstd::seq_lib::to_multiset_contains(totals, totals[m]);
            vstd::seq_lib::to_multiset_contains(out, totals[m]);
            assert(totals.contains(totals[m]));
            assert(out.contains(totals[m]));
            let k = choose|k: int| 0 <= k < out.len() && out[k] == totals[m];
            assert(out[k].name == name);
        }
    }
}

/// The digits of `n` in base ten, as characters.
pub open spec fn decimal_chars(n: nat) -> Seq<char> {
    decimal_digits(n).map_values(|b: u8| b as char)
}

/// The line of one total: its name, a space, its time, a line feed.
pub open spec fn folded_line(total: TotalView) -> Seq<char> {
    total.name + " "@ + decimal_chars(total.time_us as nat) + "\n"@
}

/// The lines of the totals, in their order.
pub open spec fn folded_text(totals: Seq<TotalView>) -> Seq<char>
    decreases totals.len(),
{
    if totals.len() == 0 {
        Seq::empty()
    } else {
        folded_text(totals.drop_last()) + folded_line(totals.last())
    }
}

/// The folded text of the samples: their totals by stack, longest first.
pub open spec fn spec_generate_folded(samples: Seq<SampleView>) -> Seq<char> {
    folded_text(sort_by_time(stack_totals(samples)))
}

/// The folded key of a stack.
pub fn stack_key(stack: &RegionStack) -> (r: String)
    ensures
        r@ == folded_key(region_names(*stack)),
{
    let regions = stack.regions();
    let ghost names = region_names(*stack);
    let mut key = String::new();
    let mut i: usize = 0;
    assert(names.subrange(0, 0) =~= Seq::<Seq<char>>::empty());
    while i < regions.len()
        invariant
            i <= regions.len(),
            names == region_names(*stack),
            regions@.len() == names.len(),
            forall|k: int| 0 <= k < regions@.len() ==> (#[trigger] regions@[k])@ == names[k],
            key@ == folded_key(names.subrange(0, i as int)),
        decreases regions.len() - i,
    {
        let ghost before = key@;
        let ghost next = names.subrange(0, i as int + 1);
        proof {
            assert(next.drop_last() =~= names.subrange(0, i as int));
            assert(next.last() == regions@[i as int]@);
        }
        if i > 0 {
            key.append(";");
        }
        key.append(regions[i]);
        proof {
            if i == 0 {
                assert(before =~= Seq::<char>::empty());
                assert(key@ =~= next[0]);
            } else {
                assert(key@ =~= before + ";"@ + next.last());
            }
        }
        i += 1;
    }
    assert(names.subrange(0, regions.len() as int) =~= names);
    key
}

/// Adds one sample of `duration_us` to the total named `name`, or begins
/// that total behind the others.
pub fn add_sample(totals: &mut Vec<RegionTotal>, name: String, duration_us: u64)
    ensures
        total_views(final(totals)@) == add_time(total_views(old(totals)@), name@, duration_us),
        names_distinct(total_views(old(totals)@)) ==> names_distinct(total_views(final(totals)@)),
        has_name(total_views(final(totals)@), name@),
{
    let ghost before = total_views(totals@);
    proof {
        if names_distinct(before) {
            law_add_time_keeps_one_total_per_name(before, name@, duration_us);
        } else {
            lemma_first_named(before, name@, 0);
            let after = add_time(before, name@, duration_us);
            let i = first_named(before, name@, 0);
            if i < before.len() {
                assert(after[i].name == name@);
            } else {
                assert(after[before.len() as int].name == name@);
            }
        }
    }
    let mut i: usize = 0;
    while i < totals.len()
        invariant
            i <= totals.len(),
            totals@ == old(totals)@,
            before == total_views(totals@),
            first_named(before, name@, 0) == first_named(before, name@, i as int),
        decreases totals.len() - i,
    {
        assert(before[i as int] == totals@[i as int]@);
        if str_eq(totals[i].name.as_str(), name.as_str()) {
            let time_us = totals[i].time_us.saturating_add(duration_us);
            let calls = totals[i].calls.saturating_add(1);
            let total = RegionTotal { name, time_us, calls };
            totals.set(i, total);
            assert(total_views(totals@) =~= add_time(before, name@, duration_us));
            assert(total_views(totals@)[i as int].name == name@);
            return ;
        }
        i += 1;
    }
    let total = RegionTotal { name, time_us: duration_us, calls: 1 };
    totals.push(total);
    assert(total_views(totals@) =~= add_time(before, name@, duration_us));
}

/// Orders totals by time, longest first; totals of equal time keep their
/// order.
pub fn sort_totals(totals: &Vec<RegionTotal>) -> (r: Vec<RegionTotal>)
    ensures
        total_views(r@) == sort_by_time(total_views(totals@)),
        r@.len() == totals@.len(),
        longest_first(total_views(r@)),
        names_distinct(total_views(totals@)) ==> names_distinct(total_views(r@)),
{
    proof {
        law_sort_by_time(total_views(totals@));
        if names_distinct(total_views(totals@)) {
            law_sort_keeps_one_total_per_name(total_views(totals@));
        }
    }
    let ghost given = total_views(totals@);
    let mut sorted: Vec<RegionTotal> = Vec::new();
    let mut i: usize = 0;
    assert(given.subrange(0, 0) =~= Seq::<TotalView>::empty());
    assert(total_views(sorted@) =~= Seq::<TotalView>::empty());
    while i < totals.len()
        invariant
            i <= totals.len(),
            given == total_views(totals@),
            total_views(sorted@) == sort_by_time(given.subrange(0, i as int)),
        decreases totals.len() - i,
    {
        let ghost done = total_views(sorted@);
        let ghost next = given.subrange(0, i as int + 1);
        proof {
            assert(next.drop_last() =~= given.subrange(0, i as int));
            assert(next.last() == totals@[i as int]@);
        }
        let time_us = totals[i].time_us;
        let mut p: usize = 0;
        while p < sorted.len() && sorted[p].time_us >= time_us
            invariant
                p <= sorted.len(),
                done == total_views(sorted@),
                first_shorter(done, time_us, 0) == first_shorter(done, time_us, p as int),
            decreases sorted.len() - p,
        {
            assert(done[p as int] == sorted@[p as int]@);
            p += 1;
        }
        proof {
            if p < sorted.len() {
                assert(done[p as int] == sorted@[p as int]@);
            }
        }
        let total = RegionTotal {
            name: totals[i].name.clone(),
            time_us,
            calls: totals[i].calls,
        };
        sorted.insert(p, total);
        assert(total_views(sorted@) =~= done.insert(p as int, totals@[i as int]@));
        i += 1;
    }
    assert(given.subrange(0, totals.len() as int) =~= given);
    sorted
}

/// Appends the digits of `n` in base ten.
pub fn append_decimal(out: &mut String, n: u64)
    ensures
        final(out)@ == old(out)@ + decimal_chars(n as nat),
    decreases n,
{
    if n >= 10 {
        append_decimal(out, n / 10);
    }
    let ghost before = out@;
    let digit: u8 = 0x30 + (n % 10) as u8;
    out.append(printable_name(digit));
    proof {
        if n >= 10 {
            assert(decimal_chars(n as nat) =~= decimal_chars((n / 10) as nat).push(digit as char));
            assert(out@ =~= old(out)@ + decimal_chars(n as nat));
        } else {
            assert(decimal_chars(n as nat) =~= seq![digit as char]);
            assert(out@ =~= old(out)@ + decimal_chars(n as nat));
        }
    }
}

/// Writes totals in the folded format, one line each.
pub fn write_folded(totals: &Vec<RegionTotal>) -> (r: String)
    ensures
        r@ == folded_text(total_views(totals@)),
{
    let ghost given = total_views(totals@);
    let mut output = String::new();
    let mut i: usize = 0;
    assert(given.subrange(0, 0) =~= Seq::<TotalView>::empty());
    while i < totals.len()
        invariant
            i <= totals.len(),
            given == total_views(totals@),
            output@ == folded_text(given.subrange(0, i as int)),
        decreases totals.len() - i,
    {
        let ghost before = output@;
        let ghost next = given.subrange(0, i as int + 1);
        proof {
            assert(next.drop_last() =~= given.subrange(0, i as int));
            assert(next.last() == totals@[i as int]@);
        }
        output.append(totals[i].name.as_str());
        output.append(" ");
        append_decimal(&mut output, totals[i].time_us);
        output.append("\n");
        assert(output@ =~= before + folded_line(next.last()));
        i += 1;
    }
    assert(given.subrange(0, totals.len() as int) =~= given);
    output
}

/// Sums the samples by their whole stack and orders the sums by time,
/// longest first. Samples without a region are left out.
pub fn totals_by_stack(samples: &[ProfileSample]) -> (r: Vec<RegionTotal>)
    ensures
        total_views(r@) == sort_by_time(stack_totals(sample_views(samples@))),
        names_distinct(total_views(r@)),
        longest_first(total_views(r@)),
{
    proof {
        law_stack_totals_have_one_total_per_stack(sample_views(samples@));
    }
    let ghost given = sample_views(samples@);
    let mut totals: Vec<RegionTotal> = Vec::new();
    let mut i: usize = 0;
    assert(given.subrange(0, 0) =~= Seq::<SampleView>::empty());
    assert(total_views(totals@) =~= Seq::<TotalView>::empty());
    while i < samples.len()
        invariant
            i <= samples.len(),
            given == sample_views(samples@),
            total_views(totals@) == stack_totals(given.subrange(0, i as int)),
        decreases samples.len() - i,
    {
        let ghost next = given.subrange(0, i as int + 1);
        proof {
            assert(next.drop_last() =~= given.subrange(0, i as int));
            assert(next.last() == samples@[i as int]@);
        }
        let key = stack_key(&samples[i].stack);
        let regions = samples[i].stack.regions();
        if regions.len() > 0 {
            add_sample(&mut totals, key, samples[i].duration_us);
        }
        i += 1;
    }
    assert(given.subrange(0, samples.len() as int) =~= given);
    sort_totals(&totals)
}

/// Sums the samples by their innermost region and orders the sums by time,
/// longest first. Samples without a region are left out.
pub fn totals_by_region(samples: &[ProfileSample]) -> (r: Vec<RegionTotal>)
    ensures
        total_views(r@) == sort_by_time(leaf_totals(sample_views(samples@))),
        names_distinct(total_views(r@)),
        longest_first(total_views(r@)),
{
    proof {
        law_leaf_totals_have_one_total_per_region(sample_views(samples@));
    }
    let ghost given = sample_views(samples@);
    let mut totals: Vec<RegionTotal> = Vec::new();
    let mut i: usize = 0;
    assert(given.subrange(0, 0) =~= Seq::<SampleView>::empty());
    assert(total_views(totals@) =~= Seq::<TotalView>::empty());
    while i < samples.len()
        invariant
            i <= samples.len(),
            given == sample_views(samples@),
            total_views(totals@) == leaf_totals(given.subrange(0, i as int)),
        decreases samples.len() - i,
    {
        let ghost next = given.subrange(0, i as int + 1);
        proof {
            assert(next.drop_last() =~= given.subrange(0, i as int));
            assert(next.last() == samples@[i as int]@);
        }
        let regions = samples[i].stack.regions();
        let n = regions.len();
        if n > 0 {
            let leaf: &'static str = regions[n - 1];
            add_sample(&mut totals, leaf.to_owned(), samples[i].duration_us);
        }
        i += 1;
    }
    assert(given.subrange(0, samples.len() as int) =~= given);
    sort_totals(&totals)
}

/// The time of all the samples together; it stops at `u64::MAX`.
pub open spec fn total_duration(samples: Seq<SampleView>) -> u64
    decreases samples.len(),
{
    if samples.len() == 0 {
        0
    } else {
        add_us(total_duration(samples.drop_last()), samples.last().duration_us)
    }
}

/// The time of all the totals together; it stops at `u64::MAX`.
pub open spec fn total_time(totals: Seq<TotalView>) -> u64
    decreases totals.len(),
{
    if totals.len() == 0 {
        0
    } else {
        add_us(total_time(totals.drop_last()), totals.last().time_us)
    }
}

/// Adds up the durations of the samples.
pub fn sum_durations(samples: &[ProfileSample]) -> (r: u64)
    ensures
        r == total_duration(sample_views(samples@)),
{
    let ghost given = sample_views(samples@);
    let mut sum: u64 = 0;
    let mut i: usize = 0;
    assert(given.subrange(0, 0) =~= Seq::<SampleView>::empty());
    while i < samples.len()
        invariant
            i <= samples.len(),
            given == sample_views(samples@),
            sum == total_duration(given.subrange(0, i as int)),
        decreases samples.len() - i,
    {
        let ghost next = given.subrange(0, i as int + 1);
        proof {
            assert(next.drop_last() =~= given.subrange(0, i as int));
            assert(next.last() == samples@[i as int]@);
        }
        sum = sum.saturating_add(samples[i].duration_us);
        i += 1;
    }
    assert(given.subrange(0, samples.len() as int) =~= given);
    sum
}

/// Adds up the times of the totals.
pub fn sum_times(totals: &Vec<RegionTotal>) -> (r: u64)
    ensures
        r == total_time(total_views(totals@)),
{
    let ghost given = total_views(totals@);
    let mut sum: u64 = 0;
    let mut i: usize = 0;
    assert(given.subrange(0, 0) =~= Seq::<TotalView>::empty());
    while i < totals.len()
        invariant
            i <= totals.len(),
            given == total_views(totals@),
            sum == total_time(given.subrange(0, i as int)),
        decreases totals.len() - i,
    {
        let ghost next = given.subrange(0, i as int + 1);
        proof {
            assert(next.drop_last() =~= given.subrange(0, i as int));
            assert(next.last() == totals@[i as int]@);
        }
        sum = sum.saturating_add(totals[i].time_us);
        i += 1;
    }
    assert(given.subrange(0, totals.len() as int) =~= given);
    sum
}

/// Writes the samples in the folded format: one line for each stack, with
/// the time of all its samples together, the longest stack first.
pub fn generate_folded(samples: &[ProfileSample]) -> (r: String)
    ensures
        r@ == spec_generate_folded(sample_views(samples@)),
{
    let totals = totals_by_stack(samples);
    write_folded(&totals)
}

} // verus!
