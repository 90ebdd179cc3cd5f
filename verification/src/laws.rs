//! What holds of every run of the allocation engine.
//!
//! The laws are stated over [`Plan`], the inputs of a run as plain values,
//! and over the spec functions that the contract of
//! [`allocate`](crate::allocation::allocate) gives its result in.

use vstd::prelude::*;
use crate::allocation::{Grant, Plan, SlotView, earliest_start, edf_order, edf_place, is_active};

verus! {

/// Whether slot `a` is served before slot `b`: its deadline is earlier, or
/// it has the same deadline and stands earlier in the list.
pub open spec fn served_before(slots: Seq<SlotView>, a: int, b: int) -> bool {
    slots[a].end < slots[b].end || (slots[a].end == slots[b].end && a < b)
}

/// Whether the slots of `order` stand in the order in which they are
/// served.
pub open spec fn in_service_order(slots: Seq<SlotView>, order: Seq<int>) -> bool {
    forall|a: int, b: int|
        0 <= a < b < order.len() ==> served_before(slots, #[trigger] order[a], #[trigger] order[b])
}

/// The place of a slot in a list is behind every slot of the list whose
/// deadline is not later, as far as the list's tail of later deadlines
/// reaches.
proof fn lemma_edf_place(slots: Seq<SlotView>, order: Seq<int>, i: int)
    ensures
        0 <= edf_place(slots, order, i) <= order.len(),
        forall|k: int|
            edf_place(slots, order, i) <= k < order.len() ==> slots[#[trigger] order[k]].end
                > slots[i].end,
        edf_place(slots, order, i) > 0 ==> slots[order[edf_place(slots, order, i) - 1]].end
            <= slots[i].end,
    decreases order.len(),
{
    if !(order.len() == 0 || slots[order.last()].end <= slots[i].end) {
        let shorter = order.drop_last();
        lemma_edf_place(slots, shorter, i);
        assert forall|k: int| edf_place(slots, order, i) <= k < order.len() implies slots[
            #[trigger] order[k]].end > slots[i].end by {
            if k < order.len() - 1 {
                assert(order[k] == shorter[k]);
            }
        }
        if edf_place(slots, order, i) > 0 {
            assert(order[edf_place(slots, order, i) - 1] == shorter[edf_place(slots, shorter, i) - 1]);
        }
    }
}

/// Earliest deadline first: the order of a day holds each active slot
/// once and no other, sorted by deadline; slots with one deadline keep the
/// order of the list.
pub proof fn lemma_edf_order(slots: Seq<SlotView>, left: Seq<nat>, d: int, n: int)
    ensures
        forall|k: int|
            0 <= k < edf_order(slots, left, d, n).len() ==> 0 <= #[trigger] edf_order(
                slots,
                left,
                d,
                n,
            )[k] < n && is_active(slots, left, d, edf_order(slots, left, d, n)[k]),
        forall|i: int|
            0 <= i < n && is_active(slots, left, d, i) ==> #[trigger] edf_order(
                slots,
                left,
                d,
                n,
            ).contains(i),
        in_service_order(slots, edf_order(slots, left, d, n)),
    decreases n,
{
    if n > 0 {
        lemma_edf_order(slots, left, d, n - 1);
        let before = edf_order(slots, left, d, n - 1);
        let order = edf_order(slots, left, d, n);
        if is_active(slots, left, d, n - 1) {
            let p = edf_place(slots, before, n - 1);
            lemma_edf_place(slots, before, n - 1);
            before.insert_ensures(p, n - 1);
            assert forall|k: int| 0 <= k < order.len() implies 0 <= #[trigger] order[k] < n
                && is_active(slots, left, d, order[k]) by {
                if k < p {
                    assert(order[k] == before[k]);
                } else if k > p {
                    assert(order[k] == before[k - 1]);
                }
            }
            assert forall|i: int| 0 <= i < n && is_active(slots, left, d, i) implies order.contains(
                i,
            ) by {
                if i == n - 1 {
                    assert(order[p] == i);
                } else {
                    assert(before.contains(i));
                    let k = choose|k: int| 0 <= k < before.len() && before[k] == i;
                    if k < p {
                        assert(order[k] == i);
                    } else {
                        assert(order[k + 1] == before[k]);
                    }
                }
            }
            assert forall|a: int, b: int| 0 <= a < b < order.len() implies served_before(
                slots,
                #[trigger] order[a],
                #[trigger] order[b],
            ) by {
                if b < p {
                    assert(order[a] == before[a] && order[b] == before[b]);
                } else if b == p {
                    if a < p - 1 {
                        assert(served_before(slots, before[a], before[p - 1]));
                    }
                } else if a < p {
                    assert(order[a] == before[a] && order[b] == before[b - 1]);
                } else if a == p {
                    assert(order[b] == before[b - 1]);
                } else {
                    assert(order[a] == before[a - 1] && order[b] == before[b - 1]);
                }
            }
        }
    }
}

/// Two lists in service order that hold the same slots are one list.
proof fn lemma_service_order_unique(slots: Seq<SlotView>, one: Seq<int>, other: Seq<int>)
    requires
        in_service_order(slots, one),
        in_service_order(slots, other),
        forall|x: int| one.contains(x) <==> other.contains(x),
    ensures
        one == other,
    decreases one.len(),
{
    if one.len() == 0 {
        if other.len() > 0 {
            assert(other.contains(other[0]));
        }
    } else {
        let x = one.last();
        assert(one.contains(one[one.len() - 1]));
        let y = other.last();
        assert(other.contains(other[other.len() - 1]));
        let j = choose|j: int| 0 <= j < one.len() && one[j] == y;
        let k = choose|k: int| 0 <= k < other.len() && other[k] == x;
        if j < one.len() - 1 && k < other.len() - 1 {
            assert(served_before(slots, one[j], one[one.len() - 1]));
        }
        let one_less = one.drop_last();
        let other_less = other.drop_last();
        assert forall|z: int| one_less.contains(z) <==> other_less.contains(z) by {
            if one_less.contains(z) {
                let a = choose|a: int| 0 <= a < one_less.len() && one_less[a] == z;
                assert(one.contains(one[a]));
                let b = choose|b: int| 0 <= b < other.len() && other[b] == z;
                assert(other_less[b] == z);
            }
            if other_less.contains(z) {
                let b = choose|b: int| 0 <= b < other_less.len() && other_less[b] == z;
                assert(other.contains(other[b]));
                let a = choose|a: int| 0 <= a < one.len() && one[a] == z;
                assert(one_less[a] == z);
            }
        }
        assert(in_service_order(slots, one_less)) by {
            assert forall|a: int, b: int| 0 <= a < b < one_less.len() implies served_before(
                slots,
                #[trigger] one_less[a],
                #[trigger] one_less[b],
            ) by {
                assert(served_before(slots, one[a], one[b]));
            }
        }
        assert(in_service_order(slots, other_less)) by {
            assert forall|a: int, b: int| 0 <= a < b < other_less.len() implies served_before(
                slots,
                #[trigger] other_less[a],
                #[trigger] other_less[b],
            ) by {
                assert(served_before(slots, other[a], other[b]));
            }
        }
        lemma_service_order_unique(slots, one_less, other_less);
        assert(one =~= one_less.push(x));
    }
}

/// The order of a day is the only one there is: a list that holds each
/// active slot and no other, in service order, is the order of the day.
pub proof fn lemma_edf_order_unique(
    slots: Seq<SlotView>,
    left: Seq<nat>,
    d: int,
    n: int,
    order: Seq<int>,
)
    requires
        forall|k: int|
            0 <= k < order.len() ==> 0 <= #[trigger] order[k] < n && is_active(
                slots,
                left,
                d,
                order[k],
            ),
        forall|i: int| 0 <= i < n && is_active(slots, left, d, i) ==> #[trigger] order.contains(i),
        in_service_order(slots, order),
    ensures
        order == edf_order(slots, left, d, n),
{
    let ours = edf_order(slots, left, d, n);
    lemma_edf_order(slots, left, d, n);
    assert forall|x: int| order.contains(x) <==> ours.contains(x) by {
        if order.contains(x) {
            let k = choose|k: int| 0 <= k < order.len() && order[k] == x;
            assert(is_active(slots, left, d, order[k]));
        }
        if ours.contains(x) {
            let k = choose|k: int| 0 <= k < ours.len() && ours[k] == x;
            assert(is_active(slots, left, d, ours[k]));
        }
    }
    lemma_service_order_unique(slots, order, ours);
}

/// What the grants of a list give to slot `i`.
pub open spec fn given(grants: Seq<Grant>, i: int) -> nat
    decreases grants.len(),
{
    if grants.len() == 0 {
        0
    } else {
        given(grants.drop_last(), i) + if grants.last().slot == i {
            grants.last().hours
        } else {
            0
        }
    }
}

/// What the grants of a list give in all.
pub open spec fn given_out(grants: Seq<Grant>) -> nat
    decreases grants.len(),
{
    if grants.len() == 0 {
        0
    } else {
        given_out(grants.drop_last()) + grants.last().hours
    }
}

/// Whether one of the grants went to a slot on its last chance: the grant
/// was forced, whatever the capacity.
pub open spec fn has_forced_grant(plan: Plan, d: int, grants: Seq<Grant>) -> bool {
    exists|k: int| 0 <= k < grants.len() && plan.is_last_chance(d, (#[trigger] grants[k]).slot)
}

/// Whether every slot number of `order` is one of `n` slots.
pub open spec fn in_range(order: Seq<int>, n: int) -> bool {
    forall|k: int| 0 <= k < order.len() ==> 0 <= #[trigger] order[k] < n
}

/// Serving takes from the slots that are served and from no other, and
/// never adds to what a slot needs.
pub proof fn lemma_serve_takes(plan: Plan, d: int, order: Seq<int>, left: Seq<nat>)
    requires
        in_range(order, left.len() as int),
    ensures
        plan.serve(d, order, left).left.len() == left.len(),
        forall|i: int|
            0 <= i < left.len() ==> #[trigger] plan.serve(d, order, left).left[i] <= left[i],
        forall|i: int|
            0 <= i < left.len() && !order.contains(i) ==> #[trigger] plan.serve(
                d,
                order,
                left,
            ).left[i] == left[i],
    decreases order.len(),
{
    if order.len() > 0 {
        let shorter = order.drop_last();
        lemma_serve_takes(plan, d, shorter, left);
        let now = plan.serve(d, order, left);
        assert forall|i: int| 0 <= i < left.len() && !order.contains(i) implies #[trigger] now.left[i]
            == left[i] by {
            if shorter.contains(i) {
                let k = choose|k: int| 0 <= k < shorter.len() && shorter[k] == i;
                assert(order[k] == i);
            }
        }
    }
}

/// Conservation on one day: what a slot is given on the day and what it
/// needs after the day add up to what it needed before.
pub proof fn lemma_serve_conserves(plan: Plan, d: int, order: Seq<int>, left: Seq<nat>, i: int)
    requires
        in_range(order, left.len() as int),
        0 <= i < left.len(),
    ensures
        given(plan.serve(d, order, left).grants, i) + plan.serve(d, order, left).left[i] == left[i],
    decreases order.len(),
{
    if order.len() > 0 {
        let shorter = order.drop_last();
        lemma_serve_takes(plan, d, shorter, left);
        lemma_serve_conserves(plan, d, shorter, left, i);
        let before = plan.serve(d, shorter, left);
        let slot = order.last();
        let hours = plan.grant(d, slot, before.left[slot], before.used);
        if hours > 0 {
            assert(before.grants.push(Grant { slot, hours }).drop_last() == before.grants);
        }
    }
}

/// A slot that is served on its last chance needs nothing after the day.
pub proof fn lemma_serve_exhausts(plan: Plan, d: int, order: Seq<int>, left: Seq<nat>, i: int)
    requires
        in_range(order, left.len() as int),
        order.contains(i),
        plan.is_last_chance(d, i),
    ensures
        plan.serve(d, order, left).left[i] == 0,
    decreases order.len(),
{
    let shorter = order.drop_last();
    lemma_serve_takes(plan, d, shorter, left);
    if order.last() != i {
        let k = choose|k: int| 0 <= k < order.len() && order[k] == i;
        assert(shorter[k] == i);
        lemma_serve_exhausts(plan, d, shorter, left, i);
    }
}

/// What is given out on a day is what its grants add up to; each grant is
/// more than nothing and goes to a slot that was served.
pub proof fn lemma_serve_grants(plan: Plan, d: int, order: Seq<int>, left: Seq<nat>)
    ensures
        plan.serve(d, order, left).used == given_out(plan.serve(d, order, left).grants),
        forall|k: int|
            0 <= k < plan.serve(d, order, left).grants.len() ==> (#[trigger] plan.serve(
                d,
                order,
                left,
            ).grants[k]).hours > 0 && order.contains(plan.serve(d, order, left).grants[k].slot),
    decreases order.len(),
{
    if order.len() > 0 {
        let shorter = order.drop_last();
        lemma_serve_grants(plan, d, shorter, left);
        let before = plan.serve(d, shorter, left);
        let now = plan.serve(d, order, left);
        let slot = order.last();
        let hours = plan.grant(d, slot, before.left[slot], before.used);
        if hours > 0 {
            assert(before.grants.push(Grant { slot, hours }).drop_last() == before.grants);
        }
        assert forall|k: int| 0 <= k < now.grants.len() implies (#[trigger] now.grants[k]).hours > 0
            && order.contains(now.grants[k].slot) by {
            if k < before.grants.len() {
                let j = choose|j: int| 0 <= j < shorter.len() && shorter[j] == before.grants[k].slot;
                assert(order[j] == before.grants[k].slot);
            } else {
                assert(order[order.len() - 1] == slot);
            }
        }
    }
}

/// The capacity bound on one day: what is given out is within the
/// capacity unless a grant of the day was forced.
pub proof fn lemma_serve_within_capacity(plan: Plan, d: int, order: Seq<int>, left: Seq<nat>)
    ensures
        plan.serve(d, order, left).used <= plan.capacity || has_forced_grant(
            plan,
            d,
            plan.serve(d, order, left).grants,
        ),
    decreases order.len(),
{
    if order.len() > 0 {
        let shorter = order.drop_last();
        lemma_serve_within_capacity(plan, d, shorter, left);
        let before = plan.serve(d, shorter, left);
        let now = plan.serve(d, order, left);
        let slot = order.last();
        let hours = plan.grant(d, slot, before.left[slot], before.used);
        if has_forced_grant(plan, d, before.grants) {
            let k = choose|k: int|
                0 <= k < before.grants.len() && plan.is_last_chance(
                    d,
                    (#[trigger] before.grants[k]).slot,
                );
            assert(now.grants[k] == before.grants[k]);
        } else if plan.is_last_chance(d, slot) && hours > 0 {
            assert(now.grants[now.grants.len() - 1].slot == slot);
        }
    }
}

/// The order of a day names slots of the plan only.
proof fn lemma_order_in_range(plan: Plan, left: Seq<nat>, d: int)
    ensures
        in_range(edf_order(plan.slots, left, d, plan.slots.len() as int), plan.slots.len() as int),
{
    lemma_edf_order(plan.slots, left, d, plan.slots.len() as int);
}

/// The replay starts no later than the reporting window.
proof fn lemma_earliest_bound(slots: Seq<SlotView>, report_start: int, n: int)
    ensures
        earliest_start(slots, report_start, n) <= report_start,
    decreases n,
{
    if n > 0 {
        lemma_earliest_bound(slots, report_start, n - 1);
    }
}

/// The replay starts no later than the window of any of the first `n`
/// slots.
proof fn lemma_earliest(slots: Seq<SlotView>, report_start: int, n: int, i: int)
    requires
        0 <= i < n,
    ensures
        earliest_start(slots, report_start, n) <= slots[i].start,
    decreases n,
{
    if i < n - 1 {
        lemma_earliest(slots, report_start, n - 1, i);
    }
}

/// The replay starts no later than the window of any slot.
pub proof fn lemma_first_day(plan: Plan, i: int)
    requires
        0 <= i < plan.slots.len(),
    ensures
        plan.first_day() <= plan.report_start,
        plan.first_day() <= plan.slots[i].start,
{
    lemma_earliest_bound(plan.slots, plan.report_start, plan.slots.len() as int);
    lemma_earliest(plan.slots, plan.report_start, plan.slots.len() as int, i);
}

/// On every day there is one amount for each slot.
pub proof fn lemma_left_at_len(plan: Plan, d: int)
    ensures
        plan.left_at(d).len() == plan.slots.len(),
    decreases d - plan.first_day(),
{
    if d > plan.first_day() {
        lemma_left_at_len(plan, d - 1);
        let left = plan.left_at(d - 1);
        lemma_order_in_range(plan, left, d - 1);
        lemma_serve_takes(
            plan,
            d - 1,
            edf_order(plan.slots, left, d - 1, plan.slots.len() as int),
            left,
        );
    }
}

/// What a slot needs only decreases during a run.
pub proof fn lemma_left_never_grows(plan: Plan, i: int, d: int, e: int)
    requires
        0 <= i < plan.slots.len(),
        d <= e,
    ensures
        plan.left_at(e)[i] <= plan.left_at(d)[i],
    decreases e - d,
{
    if d < e {
        lemma_left_never_grows(plan, i, d, e - 1);
        if e > plan.first_day() {
            lemma_left_at_len(plan, e - 1);
            let left = plan.left_at(e - 1);
            lemma_order_in_range(plan, left, e - 1);
            lemma_serve_takes(
                plan,
                e - 1,
                edf_order(plan.slots, left, e - 1, plan.slots.len() as int),
                left,
            );
        } else {
            assert(plan.left_at(e) == plan.left_at(e - 1));
        }
    }
}

/// What slot `i` was given on the days of the replay before day `d`.
pub open spec fn placed(plan: Plan, i: int, d: int) -> nat
    decreases d - plan.first_day(),
{
    if d <= plan.first_day() {
        0
    } else {
        placed(plan, i, d - 1) + if plan.is_effective(d - 1) {
            given(plan.day_state(d - 1).grants, i)
        } else {
            0
        }
    }
}

/// Conservation: at every point of a run, what a slot was given so far
/// and what it still needs add up to its effort.
pub proof fn lemma_conservation(plan: Plan, i: int, d: int)
    requires
        0 <= i < plan.slots.len(),
    ensures
        placed(plan, i, d) + plan.left_at(d)[i] == plan.slots[i].effort,
    decreases d - plan.first_day(),
{
    if d > plan.first_day() {
        lemma_conservation(plan, i, d - 1);
        lemma_left_at_len(plan, d - 1);
        let left = plan.left_at(d - 1);
        lemma_order_in_range(plan, left, d - 1);
        lemma_serve_conserves(
            plan,
            d - 1,
            edf_order(plan.slots, left, d - 1, plan.slots.len() as int),
            left,
            i,
        );
    }
}

/// Whether the window of slot `i` holds an effective day.
pub open spec fn is_reachable(plan: Plan, i: int) -> bool {
    plan.effective_between(plan.slots[i].start, plan.slots[i].end) > 0
}

/// A range that holds an effective day holds a last one.
proof fn lemma_last_effective(plan: Plan, start: int, end: int) -> (last: int)
    requires
        plan.effective_between(start, end) > 0,
    ensures
        start <= last <= end,
        plan.is_effective(last),
        plan.effective_between(last, end) == 1,
    decreases end - start + 1,
{
    if plan.is_effective(end) {
        assert(plan.effective_between(end, end - 1) == 0);
        end
    } else {
        let last = lemma_last_effective(plan, start, end - 1);
        last
    }
}

/// An effective day in a range makes the count of the range positive.
proof fn lemma_effective_counts(plan: Plan, start: int, end: int, d: int)
    requires
        start <= d <= end,
        plan.is_effective(d),
    ensures
        plan.effective_between(start, end) > 0,
    decreases end - start + 1,
{
    if d < end {
        lemma_effective_counts(plan, start, end - 1, d);
    }
}

/// Deadline exhaustion: a slot whose window holds an effective day needs
/// nothing once its deadline has passed.
pub proof fn lemma_deadline_exhaustion(plan: Plan, i: int, d: int)
    requires
        0 <= i < plan.slots.len(),
        is_reachable(plan, i),
        d > plan.slots[i].end,
    ensures
        plan.left_at(d)[i] == 0,
{
    let last = lemma_last_effective(plan, plan.slots[i].start, plan.slots[i].end);
    lemma_first_day(plan, i);
    lemma_left_at_len(plan, last);
    let left = plan.left_at(last);
    let order = edf_order(plan.slots, left, last, plan.slots.len() as int);
    lemma_edf_order(plan.slots, left, last, plan.slots.len() as int);
    lemma_serve_takes(plan, last, order, left);
    if left[i] > 0 {
        lemma_serve_exhausts(plan, last, order, left, i);
    }
    lemma_left_never_grows(plan, i, last + 1, d);
}

/// A slot whose window holds no effective day is never served: it needs
/// its whole effort on every day of the run.
pub proof fn lemma_unreachable_keeps_effort(plan: Plan, i: int, d: int)
    requires
        0 <= i < plan.slots.len(),
        !is_reachable(plan, i),
    ensures
        plan.left_at(d)[i] == plan.slots[i].effort,
    decreases d - plan.first_day(),
{
    if d > plan.first_day() {
        lemma_unreachable_keeps_effort(plan, i, d - 1);
        lemma_left_at_len(plan, d - 1);
        let left = plan.left_at(d - 1);
        let order = edf_order(plan.slots, left, d - 1, plan.slots.len() as int);
        lemma_edf_order(plan.slots, left, d - 1, plan.slots.len() as int);
        lemma_serve_takes(plan, d - 1, order, left);
        if plan.is_effective(d - 1) && order.contains(i) {
            let k = choose|k: int| 0 <= k < order.len() && order[k] == i;
            assert(is_active(plan.slots, left, d - 1, order[k]));
            lemma_effective_counts(plan, plan.slots[i].start, plan.slots[i].end, d - 1);
        }
    }
}

/// The capacity bound: on every effective day, what is placed is within
/// the developer's capacity unless a grant of the day was forced by a
/// deadline.
pub proof fn lemma_capacity_bound(plan: Plan, d: int)
    ensures
        plan.day(d).allocated_hours <= plan.day(d).max_hours || has_forced_grant(
            plan,
            d,
            plan.day_state(d).grants,
        ),
{
    let left = plan.left_at(d);
    lemma_serve_within_capacity(
        plan,
        d,
        edf_order(plan.slots, left, d, plan.slots.len() as int),
        left,
    );
}

/// The record of a day adds up: what is placed on the day is the sum of
/// its shares, each share is more than nothing, and what is available is
/// what the capacity holds beyond that.
pub proof fn lemma_day_adds_up(plan: Plan, d: int)
    ensures
        plan.day(d).allocated_hours == given_out(plan.day_state(d).grants),
        plan.day(d).tasks.len() == plan.day_state(d).grants.len(),
        forall|k: int|
            0 <= k < plan.day(d).tasks.len() ==> (#[trigger] plan.day(d).tasks[k]).daily_hours
                == plan.day_state(d).grants[k].hours && plan.day(d).tasks[k].daily_hours > 0,
        plan.day(d).available_hours == if plan.day(d).allocated_hours >= plan.capacity {
            0
        } else {
            plan.capacity - plan.day(d).allocated_hours
        },
{
    let left = plan.left_at(d);
    lemma_serve_grants(plan, d, edf_order(plan.slots, left, d, plan.slots.len() as int), left);
}

/// Conservation over a full run: a slot whose window holds an effective
/// day and ends within the run was given its effort exactly, and needs
/// nothing when the run is over.
pub proof fn lemma_effort_is_placed(plan: Plan, i: int)
    requires
        0 <= i < plan.slots.len(),
        is_reachable(plan, i),
        plan.slots[i].end <= plan.report_end,
    ensures
        placed(plan, i, plan.report_end + 1) == plan.slots[i].effort,
        plan.left_over()[i] == 0,
{
    lemma_conservation(plan, i, plan.report_end + 1);
    lemma_deadline_exhaustion(plan, i, plan.report_end + 1);
}

/// The diagnostics are exact: a slot whose deadline lies within the run
/// is reported as unreachable if and only if it has effort and its window
/// holds no effective day; what it is reported to need is then its whole
/// effort.
pub proof fn lemma_stranded(plan: Plan, i: int)
    requires
        0 <= i < plan.slots.len(),
        plan.slots[i].end <= plan.report_end,
    ensures
        plan.is_stranded(i) == (plan.slots[i].effort > 0 && !is_reachable(plan, i)),
        plan.is_stranded(i) ==> plan.stranded(i).remaining_hours == plan.slots[i].effort,
{
    if is_reachable(plan, i) {
        lemma_deadline_exhaustion(plan, i, plan.report_end + 1);
    } else {
        lemma_unreachable_keeps_effort(plan, i, plan.report_end + 1);
    }
}

/// The report holds one record for each effective day of the reporting
/// window and no other, in order of date.
pub proof fn lemma_report_days(plan: Plan, d: int)
    ensures
        forall|k: int|
            0 <= k < plan.report_until(d).len() ==> plan.report_start <= (#[trigger] plan.report_until(
                d,
            )[k]).date < d && plan.is_effective(plan.report_until(d)[k].date) && plan.report_until(
                d,
            )[k] == plan.day(plan.report_until(d)[k].date),
        forall|j: int, k: int|
            0 <= j < k < plan.report_until(d).len() ==> (#[trigger] plan.report_until(d)[j]).date < (
            #[trigger] plan.report_until(d)[k]).date,
        forall|e: int|
            plan.report_start <= e < d && #[trigger] plan.is_effective(e) ==> exists|k: int|
                0 <= k < plan.report_until(d).len() && (#[trigger] plan.report_until(d)[k]).date == e,
    decreases d - plan.report_start,
{
    if d > plan.report_start {
        lemma_report_days(plan, d - 1);
        let before = plan.report_until(d - 1);
        let now = plan.report_until(d);
        assert forall|e: int| plan.report_start <= e < d && #[trigger] plan.is_effective(
            e,
        ) implies exists|k: int| 0 <= k < now.len() && (#[trigger] now[k]).date == e by {
            if e < d - 1 {
                let k = choose|k: int| 0 <= k < before.len() && (#[trigger] before[k]).date == e;
                assert(now[k].date == e);
            } else {
                assert(now[now.len() - 1].date == e);
            }
        }
    }
}

/// What slot `i` was given on the days of the reporting window before day
/// `d`: what the report shows of it.
pub open spec fn reported(plan: Plan, i: int, d: int) -> nat
    decreases d - plan.report_start,
{
    if d <= plan.report_start {
        0
    } else {
        reported(plan, i, d - 1) + if plan.is_effective(d - 1) {
            given(plan.day_state(d - 1).grants, i)
        } else {
            0
        }
    }
}

/// No grant goes to a slot that was not served.
proof fn lemma_given_to_served_only(plan: Plan, d: int, order: Seq<int>, left: Seq<nat>, i: int)
    requires
        !order.contains(i),
    ensures
        given(plan.serve(d, order, left).grants, i) == 0,
    decreases order.len(),
{
    if order.len() > 0 {
        let shorter = order.drop_last();
        if shorter.contains(i) {
            let k = choose|k: int| 0 <= k < shorter.len() && shorter[k] == i;
            assert(order[k] == i);
        }
        lemma_given_to_served_only(plan, d, shorter, left, i);
        let before = plan.serve(d, shorter, left);
        let slot = order.last();
        let hours = plan.grant(d, slot, before.left[slot], before.used);
        if hours > 0 {
            assert(before.grants.push(Grant { slot, hours }).drop_last() == before.grants);
        }
    }
}

/// A slot is given nothing before its window opens.
proof fn lemma_nothing_before_window(plan: Plan, i: int, d: int)
    requires
        0 <= i < plan.slots.len(),
        d <= plan.slots[i].start,
    ensures
        placed(plan, i, d) == 0,
    decreases d - plan.first_day(),
{
    if d > plan.first_day() {
        lemma_nothing_before_window(plan, i, d - 1);
        let left = plan.left_at(d - 1);
        let order = edf_order(plan.slots, left, d - 1, plan.slots.len() as int);
        lemma_edf_order(plan.slots, left, d - 1, plan.slots.len() as int);
        if order.contains(i) {
            let k = choose|k: int| 0 <= k < order.len() && order[k] == i;
            assert(is_active(plan.slots, left, d - 1, order[k]));
        }
        lemma_given_to_served_only(plan, d - 1, order, left, i);
    }
}

/// What a slot was given in all is what it was given before the reporting
/// window and what the report shows.
proof fn lemma_placed_splits(plan: Plan, i: int, d: int)
    requires
        plan.report_start <= d,
    ensures
        placed(plan, i, d) == placed(plan, i, plan.report_start) + reported(plan, i, d),
    decreases d - plan.report_start,
{
    if d > plan.report_start {
        lemma_earliest_bound(plan.slots, plan.report_start, plan.slots.len() as int);
        lemma_placed_splits(plan, i, d - 1);
    }
}

/// Conservation in the report: a task whose window lies in the reporting
/// window and holds an effective day is shown with shares that add up to
/// its effort exactly.
pub proof fn lemma_report_conserves(plan: Plan, i: int)
    requires
        0 <= i < plan.slots.len(),
        is_reachable(plan, i),
        plan.report_start <= plan.slots[i].start,
        plan.slots[i].end <= plan.report_end,
    ensures
        reported(plan, i, plan.report_end + 1) == plan.slots[i].effort,
{
    lemma_effort_is_placed(plan, i);
    lemma_nothing_before_window(plan, i, plan.report_start);
    // A window that holds a day is not reversed, so neither is the report.
    lemma_placed_splits(plan, i, plan.report_end + 1);
}

} // verus!
