//! The allocation engine: a day-by-day replay that spreads a developer's
//! daily capacity over their tasks, earliest deadline first.
//!
//! Each task has a fixed window and a fixed effort. On every worked day the
//! tasks whose window holds the day are served in order of their deadline,
//! each taking as much of the day's capacity as is left. A task on its last
//! worked day takes all it still needs, capacity or not, so that every task
//! that can be reached is exhausted by its deadline.

use std::collections::HashSet;
use vstd::prelude::*;
use vstd::std_specs::hash::group_hash_axioms;
use crate::calendar::{CalendarView, WorkdayCalendar, is_workday};
use crate::date::{Date, is_day_number};
use crate::error::{InputFault, ScheduleError};
use crate::laws::{
    has_forced_grant, is_reachable, lemma_capacity_bound, lemma_effort_is_placed,
    lemma_report_conserves, lemma_report_days, placed, reported,
};

verus! {

/// How many units of work make one hour.
pub const UNITS_PER_HOUR: u64 = 1000;

/// One task as the engine sees it for one run.
#[derive(Clone, Debug)]
pub struct TaskSlot {
    pub task_id: i64,
    pub task_name: String,
    /// The effort that is still to be placed, in units of work.
    pub remaining_hours: u64,
    /// The first day of the task's window.
    pub window_start: Date,
    /// The last day of the task's window: its deadline.
    pub window_end: Date,
}

/// A task slot over plain values.
pub struct SlotView {
    pub task_id: int,
    pub task_name: Seq<char>,
    pub effort: nat,
    pub start: int,
    pub end: int,
}

impl View for TaskSlot {
    type V = SlotView;

    open spec fn view(&self) -> SlotView {
        SlotView {
            task_id: self.task_id as int,
            task_name: self.task_name@,
            effort: self.remaining_hours as nat,
            start: self.window_start@,
            end: self.window_end@,
        }
    }
}

/// The views of a list of slots.
pub open spec fn slot_views(slots: Seq<TaskSlot>) -> Seq<SlotView> {
    slots.map_values(|s: TaskSlot| s@)
}

/// A list of amounts as natural numbers.
pub open spec fn amounts(values: Seq<u64>) -> Seq<nat> {
    values.map_values(|v: u64| v as nat)
}

/// The sum of a list of amounts.
pub open spec fn total(amounts: Seq<nat>) -> nat
    decreases amounts.len(),
{
    if amounts.len() == 0 {
        0
    } else {
        total(amounts.drop_last()) + amounts.last()
    }
}

/// Changing one amount changes the sum by the difference.
proof fn lemma_total_update(amounts: Seq<nat>, i: int, value: nat)
    requires
        0 <= i < amounts.len(),
    ensures
        total(amounts.update(i, value)) + amounts[i] == total(amounts) + value,
    decreases amounts.len(),
{
    if i == amounts.len() - 1 {
        assert(amounts.update(i, value).drop_last() == amounts.drop_last());
    } else {
        assert(amounts.update(i, value).drop_last() == amounts.drop_last().update(i, value));
        lemma_total_update(amounts.drop_last(), i, value);
    }
}

/// No amount is more than the sum.
proof fn lemma_total_bounds(amounts: Seq<nat>, i: int)
    requires
        0 <= i < amounts.len(),
    ensures
        amounts[i] <= total(amounts),
    decreases amounts.len(),
{
    if i < amounts.len() - 1 {
        lemma_total_bounds(amounts.drop_last(), i);
    }
}

/// Whether day `d` lies in the window of `slot`.
pub open spec fn in_window(slot: SlotView, d: int) -> bool {
    slot.start <= d <= slot.end
}

/// Whether slot `i` competes for capacity on day `d`: it has effort left
/// and `d` lies in its window.
pub open spec fn is_active(slots: Seq<SlotView>, left: Seq<nat>, d: int, i: int) -> bool {
    left[i] > 0 && in_window(slots[i], d)
}

/// Where slot `i` goes in `order`, a list of slots in order of deadline:
/// behind every slot whose deadline is not later than its own.
pub open spec fn edf_place(slots: Seq<SlotView>, order: Seq<int>, i: int) -> int
    decreases order.len(),
{
    if order.len() == 0 || slots[order.last()].end <= slots[i].end {
        order.len() as int
    } else {
        edf_place(slots, order.drop_last(), i)
    }
}

/// The slots among the first `n` that are active on day `d`, earliest
/// deadline first; slots with one deadline keep the order of the list.
pub open spec fn edf_order(slots: Seq<SlotView>, left: Seq<nat>, d: int, n: int) -> Seq<int>
    decreases n,
{
    if n <= 0 {
        Seq::empty()
    } else {
        let before = edf_order(slots, left, d, n - 1);
        if is_active(slots, left, d, n - 1) {
            before.insert(edf_place(slots, before, n - 1), n - 1)
        } else {
            before
        }
    }
}

/// A list of slot numbers as integers.
pub open spec fn indices(values: Seq<usize>) -> Seq<int> {
    values.map_values(|v: usize| v as int)
}

/// Lists the slots that are active on `today`, earliest deadline first.
fn active_by_deadline(slots: &Vec<TaskSlot>, left: &Vec<u64>, today: i32) -> (order: Vec<usize>)
    requires
        left.len() == slots.len(),
    ensures
        indices(order@) == edf_order(
            slot_views(slots@),
            amounts(left@),
            today as int,
            slots.len() as int,
        ),
        forall|k: int| 0 <= k < order.len() ==> order[k] < slots.len(),
{
    let ghost views = slot_views(slots@);
    let ghost rest = amounts(left@);
    let mut order: Vec<usize> = Vec::new();
    let mut i: usize = 0;
    while i < slots.len()
        invariant
            i <= slots.len(),
            left.len() == slots.len(),
            views == slot_views(slots@),
            rest == amounts(left@),
            indices(order@) == edf_order(views, rest, today as int, i as int),
            forall|k: int| 0 <= k < order.len() ==> order[k] < i,
        decreases slots.len() - i,
    {
        let start: i32 = slots[i].window_start.days();
        let end: i32 = slots[i].window_end.days();
        if left[i] > 0 && start <= today && today <= end {
            let ghost before = indices(order@);
            let mut place: usize = order.len();
            assert(before.take(place as int) == before);
            while place > 0 && slots[order[place - 1]].window_end.days() > end
                invariant
                    place <= order.len(),
                    i < slots.len(),
                    views == slot_views(slots@),
                    before == indices(order@),
                    end == views[i as int].end,
                    forall|k: int| 0 <= k < order.len() ==> order[k] < i,
                    edf_place(views, before, i as int) == edf_place(
                        views,
                        before.take(place as int),
                        i as int,
                    ),
                decreases place,
            {
                proof {
                    assert(before.take(place as int).drop_last() == before.take(place - 1));
                }
                place -= 1;
            }
            proof {
                if place > 0 {
                    assert(before.take(place as int).last() == order[place - 1]);
                }
            }
            order.insert(place, i);
        }
        i += 1;
    }
    order
}

/// The share of one day that one task was given.
#[derive(Clone, Debug)]
pub struct WorkloadTask {
    pub task_id: i64,
    pub task_name: String,
    /// Units of work placed on the day.
    pub daily_hours: u64,
}

/// The share of a task over plain values.
pub struct WorkloadTaskView {
    pub task_id: int,
    pub task_name: Seq<char>,
    pub daily_hours: nat,
}

impl View for WorkloadTask {
    type V = WorkloadTaskView;

    open spec fn view(&self) -> WorkloadTaskView {
        WorkloadTaskView {
            task_id: self.task_id as int,
            task_name: self.task_name@,
            daily_hours: self.daily_hours as nat,
        }
    }
}

/// The views of a list of shares.
pub open spec fn share_views(shares: Seq<WorkloadTask>) -> Seq<WorkloadTaskView> {
    shares.map_values(|t: WorkloadTask| t@)
}

/// What slot number `slot` was given on one day.
pub struct Grant {
    pub slot: int,
    pub hours: nat,
}

/// Where one day stands after some of its slots were served.
pub struct DayState {
    /// What each slot still needs.
    pub left: Seq<nat>,
    /// What was given out so far on this day.
    pub used: nat,
    /// The grants of the day that are more than nothing, in the order in
    /// which they were made.
    pub grants: Seq<Grant>,
}

/// The inputs of one run of the engine, over plain values.
pub struct Plan {
    pub cal: CalendarView,
    pub slots: Seq<SlotView>,
    /// The developer's capacity per day.
    pub capacity: nat,
    pub report_start: int,
    pub report_end: int,
    /// Whether days off inside a task's window count as worked overtime.
    pub overtime: bool,
}

/// Whether `d` lies in the window of one of the first `n` slots.
pub open spec fn covered_among(slots: Seq<SlotView>, n: int, d: int) -> bool {
    exists|i: int| 0 <= i < n && in_window(#[trigger] slots[i], d)
}

impl Plan {
    /// Whether `d` lies in the window of some task.
    pub open spec fn covered(self, d: int) -> bool {
        covered_among(self.slots, self.slots.len() as int, d)
    }

    /// Whether `d` is an overtime day of this run: a day off that lies in
    /// the window of some task, in a run with overtime.
    pub open spec fn is_overtime_day(self, d: int) -> bool {
        self.overtime && !self.cal.is_workday(d) && self.covered(d)
    }

    /// Whether capacity is given out on `d`: on working days and on
    /// overtime days.
    pub open spec fn is_effective(self, d: int) -> bool {
        self.cal.is_workday(d) || self.is_overtime_day(d)
    }

    /// How many days from `start` to `end`, both included, are effective.
    pub open spec fn effective_between(self, start: int, end: int) -> nat
        decreases end - start + 1,
    {
        if end < start {
            0
        } else {
            self.effective_between(start, end - 1) + if self.is_effective(end) {
                1nat
            } else {
                0nat
            }
        }
    }

    /// Whether `d` is the last day on which slot `i` can be served: no
    /// effective day follows it up to the deadline.
    pub open spec fn is_last_chance(self, d: int, i: int) -> bool {
        self.effective_between(d, self.slots[i].end) <= 1
    }

    /// What slot `i` is given on day `d` when it still needs `left` and
    /// `used` was given out on that day before: all of `left` on its last
    /// chance, else as much of it as the capacity still holds.
    pub open spec fn grant(self, d: int, i: int, left: nat, used: nat) -> nat {
        if self.is_last_chance(d, i) {
            left
        } else if used >= self.capacity {
            0
        } else if left <= self.capacity - used {
            left
        } else {
            (self.capacity - used) as nat
        }
    }

    /// Day `d` after the slots of `order` were served one after the other,
    /// starting from what `left` says each slot needs.
    pub open spec fn serve(self, d: int, order: Seq<int>, left: Seq<nat>) -> DayState
        decreases order.len(),
    {
        if order.len() == 0 {
            DayState { left, used: 0, grants: Seq::empty() }
        } else {
            let before = self.serve(d, order.drop_last(), left);
            let i = order.last();
            let hours = self.grant(d, i, before.left[i], before.used);
            DayState {
                left: before.left.update(i, (before.left[i] - hours) as nat),
                used: before.used + hours,
                grants: if hours > 0 {
                    before.grants.push(Grant { slot: i, hours })
                } else {
                    before.grants
                },
            }
        }
    }

    /// The share that a grant stands for in the report.
    pub open spec fn share(self, grant: Grant) -> WorkloadTaskView {
        WorkloadTaskView {
            task_id: self.slots[grant.slot].task_id,
            task_name: self.slots[grant.slot].task_name,
            daily_hours: grant.hours,
        }
    }

    /// The shares that a day's grants stand for in the report.
    pub open spec fn shares(self, grants: Seq<Grant>) -> Seq<WorkloadTaskView> {
        grants.map_values(|g: Grant| self.share(g))
    }
}

/// Whether the set holds the overtime days of the run, and no other day.
pub open spec fn holds_overtime_days(days: Set<i32>, plan: Plan) -> bool {
    forall|d: i32| #[trigger] days.contains(d) == plan.is_overtime_day(d as int)
}

/// The overtime days of a run: the days off that lie in the window of
/// some slot. A run without overtime has none.
fn overtime_days(
    cal: &WorkdayCalendar,
    slots: &Vec<TaskSlot>,
    include_overtime: bool,
    Ghost(plan): Ghost<Plan>,
) -> (days: HashSet<i32>)
    requires
        plan.cal == cal@,
        plan.slots == slot_views(slots@),
        plan.overtime == include_overtime,
    ensures
        holds_overtime_days(days@, plan),
{
    broadcast use group_hash_axioms;

    let mut days: HashSet<i32> = HashSet::new();
    if include_overtime {
        let mut i: usize = 0;
        while i < slots.len()
            invariant
                i <= slots.len(),
                plan.cal == cal@,
                plan.slots == slot_views(slots@),
                forall|d: i32| #[trigger]
                    days@.contains(d) == (!cal@.is_workday(d as int) && covered_among(
                        plan.slots,
                        i as int,
                        d as int,
                    )),
            decreases slots.len() - i,
        {
            let start: i32 = slots[i].window_start.days();
            let end: i32 = slots[i].window_end.days();
            let mut day: i32 = start;
            while day <= end
                invariant
                    i < slots.len(),
                    plan.cal == cal@,
                    plan.slots == slot_views(slots@),
                    start == plan.slots[i as int].start,
                    end == plan.slots[i as int].end,
                    is_day_number(start as int),
                    is_day_number(end as int),
                    start <= day,
                    day <= end + 1 || day == start,
                    forall|d: i32| #[trigger]
                        days@.contains(d) == (!cal@.is_workday(d as int) && (covered_among(
                            plan.slots,
                            i as int,
                            d as int,
                        ) || start <= d < day)),
                decreases end - day + 1,
            {
                let date = Date::at(day);
                if !is_workday(cal, &date) {
                    days.insert(day);
                }
                day += 1;
            }
            proof {
                assert forall|d: i32| #[trigger]
                    days@.contains(d) == (!cal@.is_workday(d as int) && covered_among(
                        plan.slots,
                        i + 1,
                        d as int,
                    )) by {
                    if covered_among(plan.slots, i + 1, d as int) {
                        let j = choose|j: int|
                            0 <= j < i + 1 && in_window(#[trigger] plan.slots[j], d as int);
                        if j < i {
                            assert(covered_among(plan.slots, i as int, d as int));
                        }
                    }
                    if covered_among(plan.slots, i as int, d as int) {
                        let j = choose|j: int|
                            0 <= j < i && in_window(#[trigger] plan.slots[j], d as int);
                        assert(in_window(plan.slots[j], d as int));
                    }
                    if start <= d <= end {
                        assert(in_window(plan.slots[i as int], d as int));
                    }
                }
            }
            i += 1;
        }
    }
    days
}

/// Whether capacity is given out on `today`.
fn is_effective_workday(
    cal: &WorkdayCalendar,
    overtime_set: &HashSet<i32>,
    today: i32,
    Ghost(plan): Ghost<Plan>,
) -> (r: bool)
    requires
        plan.cal == cal@,
        holds_overtime_days(overtime_set@, plan),
        is_day_number(today as int),
    ensures
        r == plan.is_effective(today as int),
{
    broadcast use group_hash_axioms;

    let date = Date::at(today);
    is_workday(cal, &date) || overtime_set.contains(&today)
}

/// Counts the effective days from `start` to `end`, both included.
fn count_effective_workdays(
    cal: &WorkdayCalendar,
    overtime_set: &HashSet<i32>,
    start: i32,
    end: i32,
    Ghost(plan): Ghost<Plan>,
) -> (count: i64)
    requires
        plan.cal == cal@,
        holds_overtime_days(overtime_set@, plan),
        is_day_number(start as int),
        is_day_number(end as int),
    ensures
        count == plan.effective_between(start as int, end as int),
{
    let mut count: i64 = 0;
    let mut current: i32 = start;
    while current <= end
        invariant
            plan.cal == cal@,
            holds_overtime_days(overtime_set@, plan),
            is_day_number(start as int),
            is_day_number(end as int),
            start <= current,
            current <= end + 1 || current == start,
            0 <= count <= current - start,
            count == plan.effective_between(start as int, current - 1),
        decreases end - current + 1,
    {
        if is_effective_workday(cal, overtime_set, current, Ghost(plan)) {
            count += 1;
        }
        current += 1;
    }
    count
}

/// Serves the slots of `order` on `today`, one after the other, taking
/// what each is given out of `left`. Returns what was given out in all
/// and, where `record` asks for it, the shares of the day.
fn serve_day(
    cal: &WorkdayCalendar,
    slots: &Vec<TaskSlot>,
    capacity: u64,
    overtime_set: &HashSet<i32>,
    left: &mut Vec<u64>,
    order: &Vec<usize>,
    today: i32,
    record: bool,
    Ghost(plan): Ghost<Plan>,
) -> (out: (Vec<WorkloadTask>, u64))
    requires
        plan.cal == cal@,
        plan.slots == slot_views(slots@),
        holds_overtime_days(overtime_set@, plan),
        plan.capacity == capacity,
        is_day_number(today as int),
        old(left).len() == slots.len(),
        forall|k: int| 0 <= k < order.len() ==> order[k] < slots.len(),
        total(amounts(old(left)@)) <= u64::MAX,
    ensures
        final(left).len() == old(left).len(),
        amounts(final(left)@) == plan.serve(
            today as int,
            indices(order@),
            amounts(old(left)@),
        ).left,
        out.1 == plan.serve(today as int, indices(order@), amounts(old(left)@)).used,
        total(amounts(final(left)@)) + out.1 == total(amounts(old(left)@)),
        record ==> share_views(out.0@) == plan.shares(
            plan.serve(today as int, indices(order@), amounts(old(left)@)).grants,
        ),
        !record ==> out.0.len() == 0,
{
    let ghost at_dawn = amounts(left@);
    let ghost served = indices(order@);
    let mut shares: Vec<WorkloadTask> = Vec::new();
    let mut used: u64 = 0;
    let mut k: usize = 0;
    while k < order.len()
        invariant
            k <= order.len(),
            plan.cal == cal@,
            plan.slots == slot_views(slots@),
            holds_overtime_days(overtime_set@, plan),
            plan.capacity == capacity,
            is_day_number(today as int),
            left.len() == slots.len(),
            served == indices(order@),
            forall|j: int| 0 <= j < order.len() ==> order[j] < slots.len(),
            total(at_dawn) <= u64::MAX,
            amounts(left@) == plan.serve(today as int, served.take(k as int), at_dawn).left,
            used == plan.serve(today as int, served.take(k as int), at_dawn).used,
            total(amounts(left@)) + used == total(at_dawn),
            record ==> share_views(shares@) == plan.shares(
                plan.serve(today as int, served.take(k as int), at_dawn).grants,
            ),
            !record ==> shares.len() == 0,
        decreases order.len() - k,
    {
        let slot: usize = order[k];
        let ghost before = plan.serve(today as int, served.take(k as int), at_dawn);
        proof {
            assert(served.take(k + 1).drop_last() == served.take(k as int));
            lemma_total_bounds(amounts(left@), slot as int);
        }
        let deadline: i32 = slots[slot].window_end.days();
        let remaining_workdays: i64 = count_effective_workdays(
            cal,
            overtime_set,
            today,
            deadline,
            Ghost(plan),
        );
        let is_last_day: bool = remaining_workdays <= 1;
        let needed: u64 = left[slot];
        let hours: u64 = if is_last_day {
            needed
        } else if used >= capacity {
            0
        } else if needed <= capacity - used {
            needed
        } else {
            capacity - used
        };
        if hours > 0 {
            if record {
                let ghost listed = share_views(shares@);
                shares.push(
                    WorkloadTask {
                        task_id: slots[slot].task_id,
                        task_name: slots[slot].task_name.clone(),
                        daily_hours: hours,
                    },
                );
                assert(share_views(shares@) =~= listed.push(
                    plan.share(Grant { slot: slot as int, hours: hours as nat }),
                ));
                assert(plan.shares(before.grants.push(Grant { slot: slot as int, hours: hours as nat }))
                    =~= plan.shares(before.grants).push(
                    plan.share(Grant { slot: slot as int, hours: hours as nat }),
                ));
            }
            proof {
                lemma_total_update(amounts(left@), slot as int, (needed - hours) as nat);
            }
            let ghost was = amounts(left@);
            left.set(slot, needed - hours);
            assert(amounts(left@) =~= was.update(slot as int, (needed - hours) as nat));
            used = used + hours;
        } else {
            assert(amounts(left@) =~= before.left.update(slot as int, before.left[slot as int]));
        }
        k += 1;
    }
    proof {
        assert(served.take(order.len() as int) == served);
    }
    (shares, used)
}

/// The load of one developer on one worked day of the reporting window.
#[derive(Clone, Debug)]
pub struct WorkloadDay {
    pub date: Date,
    /// What was placed on the day, in units of work.
    pub allocated_hours: u64,
    /// The developer's capacity per day.
    pub max_hours: u64,
    /// What the capacity still holds: nothing where the day is over-full.
    pub available_hours: u64,
    /// Whether the day is worked only as overtime.
    pub is_overtime: bool,
    /// The shares of the day, in the order in which they were given.
    pub tasks: Vec<WorkloadTask>,
}

/// The load of one day over plain values.
pub struct WorkloadDayView {
    pub date: int,
    pub allocated_hours: nat,
    pub max_hours: nat,
    pub available_hours: nat,
    pub is_overtime: bool,
    pub tasks: Seq<WorkloadTaskView>,
}

impl View for WorkloadDay {
    type V = WorkloadDayView;

    open spec fn view(&self) -> WorkloadDayView {
        WorkloadDayView {
            date: self.date@,
            allocated_hours: self.allocated_hours as nat,
            max_hours: self.max_hours as nat,
            available_hours: self.available_hours as nat,
            is_overtime: self.is_overtime,
            tasks: share_views(self.tasks@),
        }
    }
}

/// The views of a list of days.
pub open spec fn day_views(days: Seq<WorkloadDay>) -> Seq<WorkloadDayView> {
    days.map_values(|d: WorkloadDay| d@)
}

/// A task whose deadline passed with effort left: its window held no
/// effective day.
#[derive(Clone, Debug)]
pub struct UnreachableDeadline {
    pub task_id: i64,
    pub task_name: String,
    /// The effort that could not be placed.
    pub remaining_hours: u64,
    pub window_end: Date,
}

/// A missed deadline over plain values.
pub struct UnreachableView {
    pub task_id: int,
    pub task_name: Seq<char>,
    pub remaining_hours: nat,
    pub window_end: int,
}

impl View for UnreachableDeadline {
    type V = UnreachableView;

    open spec fn view(&self) -> UnreachableView {
        UnreachableView {
            task_id: self.task_id as int,
            task_name: self.task_name@,
            remaining_hours: self.remaining_hours as nat,
            window_end: self.window_end@,
        }
    }
}

/// The views of a list of missed deadlines.
pub open spec fn unreachable_views(missed: Seq<UnreachableDeadline>) -> Seq<UnreachableView> {
    missed.map_values(|m: UnreachableDeadline| m@)
}

/// What a run of the engine gives back.
#[derive(Clone, Debug)]
pub struct Allocation {
    /// One record for each effective day of the reporting window, in
    /// order of date.
    pub days: Vec<WorkloadDay>,
    /// The tasks whose deadline passed with effort left, in the order of
    /// the slots.
    pub unreachable: Vec<UnreachableDeadline>,
}

/// The result of a run over plain values.
pub struct AllocationView {
    pub days: Seq<WorkloadDayView>,
    pub unreachable: Seq<UnreachableView>,
}

impl View for Allocation {
    type V = AllocationView;

    open spec fn view(&self) -> AllocationView {
        AllocationView {
            days: day_views(self.days@),
            unreachable: unreachable_views(self.unreachable@),
        }
    }
}

impl Plan {
    /// The effort of each slot.
    pub open spec fn efforts(self) -> Seq<nat> {
        self.slots.map_values(|s: SlotView| s.effort)
    }

    /// Why the run is rejected, if it is: the reporting window ends
    /// before it starts, the developer has no capacity, or the efforts add
    /// up to more than 64 bits hold.
    pub open spec fn fault(self) -> Option<InputFault> {
        if self.report_start > self.report_end {
            Some(InputFault::ReversedWindow)
        } else if self.capacity == 0 {
            Some(InputFault::NoCapacity)
        } else if total(self.efforts()) > u64::MAX {
            Some(InputFault::EffortOverflow)
        } else {
            None
        }
    }

    /// The day on which the replay starts: the first day of the reporting
    /// window, or the first day of a task's window where that is earlier.
    pub open spec fn first_day(self) -> int {
        earliest_start(self.slots, self.report_start, self.slots.len() as int)
    }

    /// What the slots need after day `d`, when they needed `left` before.
    pub open spec fn after_day(self, left: Seq<nat>, d: int) -> Seq<nat> {
        if self.is_effective(d) {
            self.serve(d, edf_order(self.slots, left, d, self.slots.len() as int), left).left
        } else {
            left
        }
    }

    /// What each slot needs at the start of day `d`, after every day of
    /// the replay before `d`.
    pub open spec fn left_at(self, d: int) -> Seq<nat>
        decreases d - self.first_day(),
    {
        if d <= self.first_day() {
            self.efforts()
        } else {
            self.after_day(self.left_at(d - 1), d - 1)
        }
    }

    /// How an effective day `d` went.
    pub open spec fn day_state(self, d: int) -> DayState {
        self.serve(
            d,
            edf_order(self.slots, self.left_at(d), d, self.slots.len() as int),
            self.left_at(d),
        )
    }

    /// The record of an effective day `d`.
    pub open spec fn day(self, d: int) -> WorkloadDayView {
        let state = self.day_state(d);
        WorkloadDayView {
            date: d,
            allocated_hours: state.used,
            max_hours: self.capacity,
            available_hours: if state.used >= self.capacity {
                0
            } else {
                (self.capacity - state.used) as nat
            },
            is_overtime: self.is_overtime_day(d),
            tasks: self.shares(state.grants),
        }
    }

    /// The records of the effective days from the first day of the
    /// reporting window up to, and without, day `d`.
    pub open spec fn report_until(self, d: int) -> Seq<WorkloadDayView>
        decreases d - self.report_start,
    {
        if d <= self.report_start {
            Seq::empty()
        } else if self.is_effective(d - 1) {
            self.report_until(d - 1).push(self.day(d - 1))
        } else {
            self.report_until(d - 1)
        }
    }

    /// What each slot needs when the replay is over.
    pub open spec fn left_over(self) -> Seq<nat> {
        self.left_at(self.report_end + 1)
    }

    /// Whether slot `i` missed its deadline: the replay went past it and
    /// the slot still needs effort.
    pub open spec fn is_stranded(self, i: int) -> bool {
        self.left_over()[i] > 0 && self.slots[i].end <= self.report_end
    }

    /// The diagnostic for slot `i`.
    pub open spec fn stranded(self, i: int) -> UnreachableView {
        UnreachableView {
            task_id: self.slots[i].task_id,
            task_name: self.slots[i].task_name,
            remaining_hours: self.left_over()[i],
            window_end: self.slots[i].end,
        }
    }

    /// The diagnostics for the first `n` slots.
    pub open spec fn stranded_among(self, n: int) -> Seq<UnreachableView>
        decreases n,
    {
        if n <= 0 {
            Seq::empty()
        } else if self.is_stranded(n - 1) {
            self.stranded_among(n - 1).push(self.stranded(n - 1))
        } else {
            self.stranded_among(n - 1)
        }
    }

    /// What the run gives back.
    pub open spec fn outcome(self) -> AllocationView {
        AllocationView {
            days: self.report_until(self.report_end + 1),
            unreachable: self.stranded_among(self.slots.len() as int),
        }
    }
}

/// The earlier of `report_start` and the first window start among the
/// first `n` slots.
pub open spec fn earliest_start(slots: Seq<SlotView>, report_start: int, n: int) -> int
    decreases n,
{
    if n <= 0 {
        report_start
    } else if slots[n - 1].start < earliest_start(slots, report_start, n - 1) {
        slots[n - 1].start
    } else {
        earliest_start(slots, report_start, n - 1)
    }
}

/// The later of `report_end` and the last deadline among the first `n`
/// slots.
pub open spec fn latest_end(slots: Seq<SlotView>, report_end: int, n: int) -> int
    decreases n,
{
    if n <= 0 {
        report_end
    } else if slots[n - 1].end > latest_end(slots, report_end, n - 1) {
        slots[n - 1].end
    } else {
        latest_end(slots, report_end, n - 1)
    }
}

/// The days of which a run reads the calendar: from the day on which the
/// replay starts to the end of the reporting window, or to the last
/// deadline where that is later. A calendar that is to serve the run wants
/// its holiday facts for the years of this range.
pub fn replay_range(task_slots: &Vec<TaskSlot>, report_start: &Date, report_end: &Date) -> (range: (
    Date,
    Date,
))
    ensures
        range.0@ == earliest_start(
            slot_views(task_slots@),
            report_start@,
            task_slots.len() as int,
        ),
        range.1@ == latest_end(slot_views(task_slots@), report_end@, task_slots.len() as int),
{
    let mut first: Date = *report_start;
    let mut last: Date = *report_end;
    let mut i: usize = 0;
    while i < task_slots.len()
        invariant
            i <= task_slots.len(),
            first@ == earliest_start(slot_views(task_slots@), report_start@, i as int),
            last@ == latest_end(slot_views(task_slots@), report_end@, i as int),
        decreases task_slots.len() - i,
    {
        if task_slots[i].window_start.days() < first.days() {
            first = task_slots[i].window_start;
        }
        if task_slots[i].window_end.days() > last.days() {
            last = task_slots[i].window_end;
        }
        i += 1;
    }
    (first, last)
}

/// The sum of the first amounts is no more than the sum of all.
proof fn lemma_total_prefix(amounts: Seq<nat>, n: int)
    requires
        0 <= n <= amounts.len(),
    ensures
        total(amounts.take(n)) <= total(amounts),
    decreases amounts.len() - n,
{
    if n < amounts.len() {
        assert(amounts.take(n + 1).drop_last() == amounts.take(n));
        lemma_total_prefix(amounts, n + 1);
    } else {
        assert(amounts.take(n) == amounts);
    }
}

/// The run that a call of [`allocate`] asks for.
pub open spec fn run_of(
    cal: CalendarView,
    developer_capacity: u64,
    task_slots: Seq<TaskSlot>,
    report_start: int,
    report_end: int,
    include_overtime: bool,
) -> Plan {
    Plan {
        cal,
        slots: slot_views(task_slots),
        capacity: developer_capacity as nat,
        report_start,
        report_end,
        overtime: include_overtime,
    }
}

/// Allocates a developer's daily capacity to their tasks, day by day, and
/// reports the load of each effective day of the reporting window.
///
/// The replay starts on the first day of the reporting window, or on the
/// first day of a task's window where that is earlier, and ends with the
/// reporting window. With `include_overtime`, a day off that lies in some
/// task's window is worked as overtime. The result also names the tasks
/// whose deadline passed with effort left.
///
/// The run is rejected where `report_start` is later than `report_end`,
/// where `developer_capacity` is 0, and where the efforts of the slots add
/// up to more than 64 bits hold.
///
/// Of every run that is not rejected, three things hold. A task whose
/// window holds an effective day and ends within the run is given its
/// effort exactly over the days of the replay, and over the days of the
/// report where its window starts within the report; it needs nothing
/// when its deadline has passed. And what is placed on a day is within the
/// capacity, unless a share of that day was forced by a deadline.
#[verifier::loop_isolation(false)]
pub fn allocate(
    cal: &WorkdayCalendar,
    developer_capacity: u64,
    task_slots: &Vec<TaskSlot>,
    report_start: &Date,
    report_end: &Date,
    include_overtime: bool,
) -> (r: Result<Allocation, ScheduleError>)
    ensures
        match run_of(
            cal@,
            developer_capacity,
            task_slots@,
            report_start@,
            report_end@,
            include_overtime,
        ).fault() {
            Some(fault) => r matches Err(e) && e == ScheduleError::InvalidInput(fault),
            None => r matches Ok(a) && a@ == run_of(
                cal@,
                developer_capacity,
                task_slots@,
                report_start@,
                report_end@,
                include_overtime,
            ).outcome(),
        },
        // Conservation and deadline exhaustion.
        r is Ok ==> forall|i: int|
            #![trigger task_slots[i]]
            ({
                let plan = run_of(
                    cal@,
                    developer_capacity,
                    task_slots@,
                    report_start@,
                    report_end@,
                    include_overtime,
                );
                0 <= i < task_slots.len() && is_reachable(plan, i) && task_slots[i].window_end@
                    <= report_end@ ==> {
                    &&& placed(plan, i, report_end@ + 1) == task_slots[i].remaining_hours
                    &&& plan.left_over()[i] == 0
                    &&& report_start@ <= task_slots[i].window_start@ ==> reported(
                        plan,
                        i,
                        report_end@ + 1,
                    ) == task_slots[i].remaining_hours
                }
            }),
        // One record for each effective day of the window, in order of date.
        r matches Ok(a) ==> forall|k: int|
            #![trigger a.days[k]]
            0 <= k < a.days.len() ==> {
                &&& report_start@ <= a.days[k].date@ <= report_end@
                &&& a.days[k].max_hours == developer_capacity
                &&& a.days[k].available_hours == if a.days[k].allocated_hours
                    >= developer_capacity {
                    0
                } else {
                    developer_capacity - a.days[k].allocated_hours
                }
            },
        r matches Ok(a) ==> forall|j: int, k: int|
            0 <= j < k < a.days.len() ==> (#[trigger] a.days[j]).date@ < (#[trigger] a.days[k]).date@,
        // The capacity bound.
        r matches Ok(a) ==> forall|k: int|
            #![trigger a.days[k]]
            ({
                let plan = run_of(
                    cal@,
                    developer_capacity,
                    task_slots@,
                    report_start@,
                    report_end@,
                    include_overtime,
                );
                0 <= k < a.days.len() ==> a.days[k].allocated_hours <= developer_capacity
                    || has_forced_grant(
                    plan,
                    a.days[k].date@,
                    plan.day_state(a.days[k].date@).grants,
                )
            }),
{
    let ghost plan = run_of(
        cal@,
        developer_capacity,
        task_slots@,
        report_start@,
        report_end@,
        include_overtime,
    );
    let view_start: i32 = report_start.days();
    let view_end: i32 = report_end.days();
    if view_start > view_end {
        return Err(ScheduleError::InvalidInput(InputFault::ReversedWindow));
    }
    if developer_capacity == 0 {
        return Err(ScheduleError::InvalidInput(InputFault::NoCapacity));
    }
    // What each slot still needs, and the day on which the replay starts.
    let mut left: Vec<u64> = Vec::new();
    let mut sum: u64 = 0;
    let mut process_start: i32 = view_start;
    let mut i: usize = 0;
    while i < task_slots.len()
        invariant
            i <= task_slots.len(),
            plan.slots == slot_views(task_slots@),
            plan.report_start == view_start,
            plan.report_end == view_end,
            plan.capacity == developer_capacity,
            developer_capacity > 0,
            view_start <= view_end,
            amounts(left@) == plan.efforts().take(i as int),
            sum == total(amounts(left@)),
            process_start == earliest_start(plan.slots, plan.report_start, i as int),
            is_day_number(process_start as int),
            process_start <= view_start,
        decreases task_slots.len() - i,
    {
        let effort: u64 = task_slots[i].remaining_hours;
        proof {
            assert(plan.efforts().take(i + 1).drop_last() == plan.efforts().take(i as int));
        }
        match sum.checked_add(effort) {
            Some(more) => {
                sum = more;
            },
            None => {
                proof {
                    lemma_total_prefix(plan.efforts(), i + 1);
                }
                return Err(ScheduleError::InvalidInput(InputFault::EffortOverflow));
            },
        }
        let ghost was = amounts(left@);
        left.push(effort);
        assert(amounts(left@) =~= was.push(effort as nat));
        assert(was.push(effort as nat).drop_last() == was);
        let start: i32 = task_slots[i].window_start.days();
        if start < process_start {
            process_start = start;
        }
        i += 1;
    }
    proof {
        assert(plan.efforts().take(task_slots.len() as int) == plan.efforts());
    }
    // The days off that are worked as overtime.
    let overtime_set: HashSet<i32> = overtime_days(cal, task_slots, include_overtime, Ghost(plan));
    let mut days: Vec<WorkloadDay> = Vec::new();
    let mut current: i32 = process_start;
    while current <= view_end
        invariant
            plan.cal == cal@,
            plan.slots == slot_views(task_slots@),
            plan.capacity == developer_capacity,
            plan.report_start == view_start,
            plan.report_end == view_end,
            plan.overtime == include_overtime,
            plan.fault() is None,
            process_start == plan.first_day(),
            process_start <= view_start <= view_end,
            is_day_number(process_start as int),
            is_day_number(view_end as int),
            process_start <= current <= view_end + 1,
            left.len() == task_slots.len(),
            amounts(left@) == plan.left_at(current as int),
            total(amounts(left@)) <= u64::MAX,
            day_views(days@) == plan.report_until(current as int),
        decreases view_end - current + 1,
    {
        let today = Date::at(current);
        let is_overtime_day: bool = overtime_set.contains(&current);
        if is_workday(cal, &today) || is_overtime_day {
            let order: Vec<usize> = active_by_deadline(task_slots, &left, current);
            let record: bool = current >= view_start;
            let (shares, used) = serve_day(
                cal,
                task_slots,
                developer_capacity,
                &overtime_set,
                &mut left,
                &order,
                current,
                record,
                Ghost(plan),
            );
            if record {
                let day = WorkloadDay {
                    date: today,
                    allocated_hours: used,
                    max_hours: developer_capacity,
                    available_hours: if used >= developer_capacity {
                        0
                    } else {
                        developer_capacity - used
                    },
                    is_overtime: is_overtime_day,
                    tasks: shares,
                };
                days.push(day);
            }
        }
        current += 1;
    }
    let mut unreachable: Vec<UnreachableDeadline> = Vec::new();
    let mut i: usize = 0;
    while i < task_slots.len()
        invariant
            i <= task_slots.len(),
            plan.slots == slot_views(task_slots@),
            plan.report_end == view_end,
            left.len() == task_slots.len(),
            amounts(left@) == plan.left_over(),
            unreachable_views(unreachable@) == plan.stranded_among(i as int),
        decreases task_slots.len() - i,
    {
        if left[i] > 0 && task_slots[i].window_end.days() <= view_end {
            unreachable.push(
                UnreachableDeadline {
                    task_id: task_slots[i].task_id,
                    task_name: task_slots[i].task_name.clone(),
                    remaining_hours: left[i],
                    window_end: task_slots[i].window_end,
                },
            );
        }
        i += 1;
    }
    proof {
        assert forall|i: int|
            0 <= i < task_slots.len() && is_reachable(plan, i) && (#[trigger] task_slots[i]).window_end@
                <= report_end@ implies {
            &&& placed(plan, i, report_end@ + 1) == task_slots[i].remaining_hours
            &&& plan.left_over()[i] == 0
            &&& report_start@ <= task_slots[i].window_start@ ==> reported(
                plan,
                i,
                report_end@ + 1,
            ) == task_slots[i].remaining_hours
        } by {
            lemma_effort_is_placed(plan, i);
            if report_start@ <= task_slots[i].window_start@ {
                lemma_report_conserves(plan, i);
            }
        }
        lemma_report_days(plan, report_end@ + 1);
        assert forall|k: int| 0 <= k < days.len() implies {
            &&& report_start@ <= (#[trigger] days[k]).date@ <= report_end@
            &&& days[k].max_hours == developer_capacity
            &&& days[k].available_hours == if days[k].allocated_hours >= developer_capacity {
                0
            } else {
                developer_capacity - days[k].allocated_hours
            }
        } by {
            assert(day_views(days@)[k] == days[k]@);
        }
        assert forall|j: int, k: int| 0 <= j < k < days.len() implies (#[trigger] days[j]).date@ < (
        #[trigger] days[k]).date@ by {
            assert(day_views(days@)[j] == days[j]@);
            assert(day_views(days@)[k] == days[k]@);
        }
        assert forall|k: int| 0 <= k < days.len() implies (#[trigger] days[k]).allocated_hours
            <= developer_capacity || has_forced_grant(
            plan,
            days[k].date@,
            plan.day_state(days[k].date@).grants,
        ) by {
            assert(day_views(days@)[k] == days[k]@);
            lemma_capacity_bound(plan, days[k].date@);
        }
    }
    Ok(Allocation { days, unreachable })
}

} // verus!
