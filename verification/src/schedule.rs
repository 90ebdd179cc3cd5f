//! Planning services: the workload of a developer and the events of the
//! calendar display, from the records of the task store.

use vstd::prelude::*;
use vstd::string::StringExecFns;
use crate::allocation::{
    Plan, SlotView, TaskSlot, UnreachableDeadline, WorkloadDayView, WorkloadTask, allocate,
    day_views, share_views, slot_views, unreachable_views,
};
use crate::calendar::{CalendarView, WorkdayCalendar};
use crate::date::{Date, MAX_DAY_NUMBER, iso_text, parsed_date};
use crate::error::{InputFault, ScheduleError};
use crate::models::{
    CalendarEvent, CalendarEventExtProps, CalendarEventExtPropsView, CalendarEventView,
    CalendarResource, CalendarResourceView, Developer, DeveloperWorkload, DeveloperWorkloadView,
    Task, workload_views,
};
use crate::text::{copy_text, decimal_string, decimal_text, same_text, text_of};

verus! {

/// The slot that a task gives, if it gives one: a task without effort, or
/// with an effort of nothing or less, or without a readable first or last
/// day, gives none.
pub open spec fn slot_of(task: Task) -> Option<SlotView> {
    match (task.planned_hours, task.planned_start, task.planned_end) {
        (Some(hours), Some(start), Some(end)) => match (parsed_date(start@), parsed_date(end@)) {
            (Some(first), Some(last)) => if hours > 0 {
                Some(
                    SlotView {
                        task_id: task.id as int,
                        task_name: task.name@,
                        effort: hours as nat,
                        start: first,
                        end: last,
                    },
                )
            } else {
                None
            },
            _ => None,
        },
        _ => None,
    }
}

/// The slots that a list of tasks gives, in the order of the tasks.
pub open spec fn projected(tasks: Seq<Task>) -> Seq<SlotView>
    decreases tasks.len(),
{
    if tasks.len() == 0 {
        Seq::empty()
    } else {
        match slot_of(tasks.last()) {
            Some(slot) => projected(tasks.drop_last()).push(slot),
            None => projected(tasks.drop_last()),
        }
    }
}

/// Builds the slot of one task.
fn task_slot(task: &Task) -> (r: Option<TaskSlot>)
    ensures
        r matches Some(slot) ==> slot_of(*task) == Some(slot@),
        r is None ==> slot_of(*task) is None,
{
    let hours: i64 = match task.planned_hours {
        Some(hours) => hours,
        None => 0,
    };
    if hours <= 0 {
        return None;
    }
    let start = match &task.planned_start {
        Some(text) => match Date::parse(text.as_str()) {
            Some(date) => date,
            None => {
                return None;
            },
        },
        None => {
            return None;
        },
    };
    let end = match &task.planned_end {
        Some(text) => match Date::parse(text.as_str()) {
            Some(date) => date,
            None => {
                return None;
            },
        },
        None => {
            return None;
        },
    };
    Some(
        TaskSlot {
            task_id: task.id,
            task_name: task.name.clone(),
            remaining_hours: hours as u64,
            window_start: start,
            window_end: end,
        },
    )
}

/// Projects the tasks of a developer to the slots of one run: each task
/// that has an effort of more than nothing and a readable window gives one
/// slot, the others give none and no error.
pub fn project_task_slots(tasks: &Vec<Task>) -> (slots: Vec<TaskSlot>)
    ensures
        slot_views(slots@) == projected(tasks@),
{
    let mut slots: Vec<TaskSlot> = Vec::new();
    let mut i: usize = 0;
    while i < tasks.len()
        invariant
            i <= tasks.len(),
            slot_views(slots@) == projected(tasks@.take(i as int)),
        decreases tasks.len() - i,
    {
        proof {
            assert(tasks@.take(i + 1).drop_last() == tasks@.take(i as int));
        }
        match task_slot(&tasks[i]) {
            Some(slot) => {
                slots.push(slot);
            },
            None => {},
        }
        i += 1;
    }
    proof {
        assert(tasks@.take(tasks.len() as int) == tasks@);
    }
    slots
}

/// The workload of a developer over a reporting window.
#[derive(Clone, Debug)]
pub struct WorkloadReport {
    /// One record for each effective day of the window, in order of date.
    pub days: Vec<DeveloperWorkload>,
    /// The tasks whose deadline passed with effort left.
    pub unreachable: Vec<UnreachableDeadline>,
}

/// The run that a request for a developer's workload asks for, or why the
/// request is rejected: a day of the reporting window that cannot be
/// read, or a fault of the run itself.
pub open spec fn requested(
    cal: CalendarView,
    capacity: nat,
    tasks: Seq<Task>,
    start_date: Seq<char>,
    end_date: Seq<char>,
    include_overtime: bool,
) -> Result<Plan, InputFault> {
    match parsed_date(start_date) {
        None => Err(InputFault::MalformedStartDate),
        Some(first) => match parsed_date(end_date) {
            None => Err(InputFault::MalformedEndDate),
            Some(last) => {
                let plan = Plan {
                    cal,
                    slots: projected(tasks),
                    capacity,
                    report_start: first,
                    report_end: last,
                    overtime: include_overtime,
                };
                match plan.fault() {
                    Some(fault) => Err(fault),
                    None => Ok(plan),
                }
            },
        },
    }
}

/// The record of a day as it is shown for a developer.
pub open spec fn shown(day: WorkloadDayView, developer: Developer) -> DeveloperWorkloadView {
    DeveloperWorkloadView {
        developer_id: developer.id as int,
        developer_name: developer.name@,
        date: iso_text(day.date),
        allocated_hours: day.allocated_hours,
        max_hours: day.max_hours,
        available_hours: day.available_hours,
        tasks: day.tasks,
        is_overtime: day.is_overtime,
    }
}

/// A copy of the shares of a day.
fn copy_shares(shares: &Vec<WorkloadTask>) -> (copy: Vec<WorkloadTask>)
    ensures
        share_views(copy@) == share_views(shares@),
{
    let mut copy: Vec<WorkloadTask> = Vec::new();
    let mut i: usize = 0;
    while i < shares.len()
        invariant
            i <= shares.len(),
            copy.len() == i,
            forall|k: int| 0 <= k < i ==> (#[trigger] copy[k])@ == shares[k]@,
        decreases shares.len() - i,
    {
        copy.push(
            WorkloadTask {
                task_id: shares[i].task_id,
                task_name: shares[i].task_name.clone(),
                daily_hours: shares[i].daily_hours,
            },
        );
        i += 1;
    }
    copy
}

/// The workload of `developer` over the reporting window from
/// `start_date` to `end_date`, both written `YYYY-MM-DD`: the tasks are
/// projected to slots and the developer's daily capacity is allocated to
/// them by [`allocate`].
///
/// `tasks` are the tasks of the developer whose window meets the
/// reporting window. The request is rejected where a day of the window
/// cannot be read and where [`allocate`] rejects the run.
pub fn get_developer_workload(
    cal: &WorkdayCalendar,
    developer: &Developer,
    tasks: &Vec<Task>,
    start_date: &str,
    end_date: &str,
    include_overtime: bool,
) -> (r: Result<WorkloadReport, ScheduleError>)
    ensures
        match requested(
            cal@,
            developer.max_hours_per_day as nat,
            tasks@,
            start_date@,
            end_date@,
            include_overtime,
        ) {
            Err(fault) => r matches Err(e) && e == ScheduleError::InvalidInput(fault),
            Ok(plan) => r matches Ok(report) && workload_views(report.days@)
                == plan.outcome().days.map_values(|d: WorkloadDayView| shown(d, *developer))
                && unreachable_views(report.unreachable@) == plan.outcome().unreachable,
        },
{
    let view_start = match Date::parse(start_date) {
        Some(date) => date,
        None => {
            return Err(ScheduleError::InvalidInput(InputFault::MalformedStartDate));
        },
    };
    let view_end = match Date::parse(end_date) {
        Some(date) => date,
        None => {
            return Err(ScheduleError::InvalidInput(InputFault::MalformedEndDate));
        },
    };
    let slots = project_task_slots(tasks);
    let allocation = match allocate(
        cal,
        developer.max_hours_per_day,
        &slots,
        &view_start,
        &view_end,
        include_overtime,
    ) {
        Ok(allocation) => allocation,
        Err(e) => {
            return Err(e);
        },
    };
    let mut days: Vec<DeveloperWorkload> = Vec::new();
    let mut i: usize = 0;
    while i < allocation.days.len()
        invariant
            i <= allocation.days.len(),
            days.len() == i,
            forall|k: int|
                0 <= k < i ==> (#[trigger] days[k])@ == shown(allocation.days[k]@, *developer),
        decreases allocation.days.len() - i,
    {
        let day = &allocation.days[i];
        days.push(
            DeveloperWorkload {
                developer_id: developer.id,
                developer_name: developer.name.clone(),
                date: day.date.to_iso_string(),
                allocated_hours: day.allocated_hours,
                max_hours: day.max_hours,
                available_hours: day.available_hours,
                tasks: copy_shares(&day.tasks),
                is_overtime: day.is_overtime,
            },
        );
        i += 1;
    }
    assert(workload_views(days@) =~= day_views(allocation.days@).map_values(
        |d: WorkloadDayView| shown(d, *developer),
    ));
    Ok(WorkloadReport { days, unreachable: allocation.unreachable })
}

/// The colour in which tasks of a type are shown; a task without a type,
/// or of a type that is not known, is shown in the first colour.
pub open spec fn color_of_type(task_type: Option<Seq<char>>) -> Seq<char> {
    match task_type {
        Some(name) => if name == "需求澄清"@ {
            "#1890ff"@
        } else if name == "技术预研"@ {
            "#722ed1"@
        } else if name == "产品设计"@ {
            "#13c2c2"@
        } else if name == "UE设计"@ {
            "#eb2f96"@
        } else if name == "架构设计"@ {
            "#fa8c16"@
        } else if name == "详细设计"@ {
            "#a0d911"@
        } else if name == "代码开发"@ {
            "#52c41a"@
        } else if name == "代码检查"@ {
            "#2f54eb"@
        } else if name == "演示"@ {
            "#fadb14"@
        } else if name == "用例设计"@ {
            "#f5222d"@
        } else if name == "测试执行"@ {
            "#faad14"@
        } else if name == "应用检查"@ {
            "#ff7a45"@
        } else if name == "JIRA BUG"@ {
            "#f5222d"@
        } else {
            "#1890ff"@
        },
        None => "#1890ff"@,
    }
}

/// The colour in which tasks of a type are shown.
pub fn task_type_color(task_type: Option<&str>) -> (color: &'static str)
    ensures
        color@ == color_of_type(
            match task_type {
                Some(name) => Some(name@),
                None => None,
            },
        ),
{
    match task_type {
        Some(name) => {
            if same_text(name, "需求澄清") {
                "#1890ff"
            } else if same_text(name, "技术预研") {
                "#722ed1"
            } else if same_text(name, "产品设计") {
                "#13c2c2"
            } else if same_text(name, "UE设计") {
                "#eb2f96"
            } else if same_text(name, "架构设计") {
                "#fa8c16"
            } else if same_text(name, "详细设计") {
                "#a0d911"
            } else if same_text(name, "代码开发") {
                "#52c41a"
            } else if same_text(name, "代码检查") {
                "#2f54eb"
            } else if same_text(name, "演示") {
                "#fadb14"
            } else if same_text(name, "用例设计") {
                "#f5222d"
            } else if same_text(name, "测试执行") {
                "#faad14"
            } else if same_text(name, "应用检查") {
                "#ff7a45"
            } else if same_text(name, "JIRA BUG") {
                "#f5222d"
            } else {
                "#1890ff"
            }
        },
        None => "#1890ff",
    }
}

/// The end of an event for a task that ends on the day that `text`
/// names: the day after, since the display takes the end as excluded. A
/// text that names no day, or the last day of all, is kept as it is.
pub open spec fn event_end(text: Seq<char>) -> Seq<char> {
    match parsed_date(text) {
        Some(day) => if day < MAX_DAY_NUMBER {
            iso_text(day + 1)
        } else {
            text
        },
        None => text,
    }
}

/// The title of an event: the name of the task, and the name of its
/// owner in square brackets where it has one.
pub open spec fn event_title(name: Seq<char>, owner_name: Option<Seq<char>>) -> Seq<char> {
    match owner_name {
        Some(owner) => name + " ["@ + owner + "]"@,
        None => name,
    }
}

/// The event that shows a task.
pub open spec fn event_of(task: Task) -> CalendarEventView {
    CalendarEventView {
        id: "task-"@ + decimal_text(task.id as int),
        title: event_title(task.name@, text_of(task.owner_name)),
        start: match task.planned_start {
            Some(text) => text@,
            None => Seq::empty(),
        },
        end: match task.planned_end {
            Some(text) => Some(event_end(text@)),
            None => None,
        },
        resource_id: match task.owner_id {
            Some(id) => Some(decimal_text(id as int)),
            None => None,
        },
        color: Some(color_of_type(text_of(task.task_type))),
        ext_props: Some(
            CalendarEventExtPropsView {
                task_id: task.id as int,
                task_type: text_of(task.task_type),
                priority: text_of(task.priority),
                status: text_of(task.status),
                owner_id: task.owner_id,
                owner_name: text_of(task.owner_name),
                planned_hours: task.planned_hours,
                sprint_id: task.sprint_id,
                sprint_name: text_of(task.sprint_name),
            },
        ),
    }
}

/// Builds the event that shows `task`.
fn calendar_event(task: &Task) -> (event: CalendarEvent)
    ensures
        event@ == event_of(*task),
{
    let mut id = String::from_str("task-");
    id.append(decimal_string(task.id).as_str());
    let mut title = task.name.clone();
    match &task.owner_name {
        Some(owner) => {
            title.append(" [");
            title.append(owner.as_str());
            title.append("]");
        },
        None => {},
    }
    let start = match &task.planned_start {
        Some(text) => text.clone(),
        None => String::new(),
    };
    let end = match &task.planned_end {
        Some(text) => {
            let next = match Date::parse(text.as_str()) {
                Some(date) => date.succ(),
                None => None,
            };
            match next {
                Some(day) => Some(day.to_iso_string()),
                None => Some(text.clone()),
            }
        },
        None => None,
    };
    let resource_id = match task.owner_id {
        Some(id) => Some(decimal_string(id)),
        None => None,
    };
    let color = match &task.task_type {
        Some(name) => task_type_color(Some(name.as_str())),
        None => task_type_color(None),
    };
    CalendarEvent {
        id,
        title,
        start,
        end,
        resource_id,
        color: Some(String::from_str(color)),
        ext_props: Some(
            CalendarEventExtProps {
                task_id: task.id,
                task_type: copy_text(&task.task_type),
                priority: copy_text(&task.priority),
                status: copy_text(&task.status),
                owner_id: task.owner_id,
                owner_name: copy_text(&task.owner_name),
                planned_hours: task.planned_hours,
                sprint_id: task.sprint_id,
                sprint_name: copy_text(&task.sprint_name),
            },
        ),
    }
}

/// The events of the calendar display for the tasks of a date range, one
/// for each task and in the order of the tasks.
pub fn get_calendar_events(tasks: &Vec<Task>) -> (events: Vec<CalendarEvent>)
    ensures
        events.len() == tasks.len(),
        forall|k: int| 0 <= k < tasks.len() ==> (#[trigger] events[k])@ == event_of(tasks[k]),
{
    let mut events: Vec<CalendarEvent> = Vec::new();
    let mut i: usize = 0;
    while i < tasks.len()
        invariant
            i <= tasks.len(),
            events.len() == i,
            forall|k: int| 0 <= k < i ==> (#[trigger] events[k])@ == event_of(tasks[k]),
        decreases tasks.len() - i,
    {
        events.push(calendar_event(&tasks[i]));
        i += 1;
    }
    events
}

/// The row that shows a developer.
pub open spec fn resource_of(developer: Developer) -> CalendarResourceView {
    CalendarResourceView {
        id: decimal_text(developer.id as int),
        title: developer.name@,
        avatar_color: Some(developer.avatar_color@),
    }
}

/// The rows that show the active developers of a list, in its order.
pub open spec fn active_resources(developers: Seq<Developer>) -> Seq<CalendarResourceView>
    decreases developers.len(),
{
    if developers.len() == 0 {
        Seq::empty()
    } else if developers.last().is_active {
        active_resources(developers.drop_last()).push(resource_of(developers.last()))
    } else {
        active_resources(developers.drop_last())
    }
}

/// The views of a list of rows.
pub open spec fn resource_views(rows: Seq<CalendarResource>) -> Seq<CalendarResourceView> {
    rows.map_values(|r: CalendarResource| r@)
}

/// The rows of the calendar display: one for each active developer.
pub fn get_calendar_resources(developers: &Vec<Developer>) -> (rows: Vec<CalendarResource>)
    ensures
        resource_views(rows@) == active_resources(developers@),
{
    let mut rows: Vec<CalendarResource> = Vec::new();
    let mut i: usize = 0;
    while i < developers.len()
        invariant
            i <= developers.len(),
            resource_views(rows@) == active_resources(developers@.take(i as int)),
        decreases developers.len() - i,
    {
        proof {
            assert(developers@.take(i + 1).drop_last() == developers@.take(i as int));
        }
        if developers[i].is_active {
            rows.push(
                CalendarResource {
                    id: decimal_string(developers[i].id),
                    title: developers[i].name.clone(),
                    avatar_color: Some(developers[i].avatar_color.clone()),
                },
            );
        }
        i += 1;
    }
    proof {
        assert(developers@.take(developers.len() as int) == developers@);
    }
    rows
}

} // verus!
