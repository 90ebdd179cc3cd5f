use devplan::allocation::UNITS_PER_HOUR;
use devplan::calendar::WorkdayCalendar;
use devplan::overtime::{OvertimeConfig, WeekendMode};
use devplan::date::Date;
use devplan::error::{InputFault, ScheduleError};
use devplan::models::{Developer, Task};
use devplan::schedule::{
    get_calendar_events, get_calendar_resources, get_developer_workload, project_task_slots,
    task_type_color,
};

const H: i64 = UNITS_PER_HOUR as i64;

fn calendar() -> WorkdayCalendar {
    WorkdayCalendar::new(OvertimeConfig { weekend_mode: WeekendMode::Off, custom_dates: Vec::new() })
}

fn task(id: i64, name: &str, hours: Option<i64>, start: Option<&str>, end: Option<&str>) -> Task {
    Task {
        id,
        external_id: None,
        task_type: None,
        name: String::from(name),
        description: None,
        owner_id: None,
        owner_name: None,
        sprint_id: None,
        sprint_name: None,
        priority: None,
        planned_start: start.map(String::from),
        planned_end: end.map(String::from),
        planned_hours: hours,
        parent_task_id: None,
        status: None,
        co_owners: None,
    }
}

fn developer(id: i64, name: &str, capacity: u64, active: bool) -> Developer {
    Developer {
        id,
        name: String::from(name),
        roles: Vec::new(),
        skills: Vec::new(),
        max_hours_per_day: capacity,
        avatar_color: String::from("#52c41a"),
        is_active: active,
    }
}

#[test]
fn projection_keeps_the_tasks_that_can_be_placed() {
    let tasks = vec![
        task(1, "a", Some(12 * H), Some("2024-01-08"), Some("2024-01-09")),
        task(2, "no effort", None, Some("2024-01-08"), Some("2024-01-09")),
        task(3, "zero", Some(0), Some("2024-01-08"), Some("2024-01-09")),
        task(4, "negative", Some(-5), Some("2024-01-08"), Some("2024-01-09")),
        task(5, "no start", Some(H), None, Some("2024-01-09")),
        task(6, "no end", Some(H), Some("2024-01-08"), None),
        task(7, "bad start", Some(H), Some("soon"), Some("2024-01-09")),
        task(8, "bad end", Some(H), Some("2024-01-08"), Some("2024-02-30")),
        task(9, "b", Some(1), Some("2024-1-8"), Some("2024-01-20")),
    ];
    let slots = project_task_slots(&tasks);
    assert_eq!(slots.len(), 2);
    assert_eq!(slots[0].task_id, 1);
    assert_eq!(slots[0].task_name, "a");
    assert_eq!(slots[0].remaining_hours, 12 * UNITS_PER_HOUR);
    assert_eq!(slots[0].window_start, Date::parse("2024-01-08").unwrap());
    assert_eq!(slots[0].window_end, Date::parse("2024-01-09").unwrap());
    assert_eq!(slots[1].task_id, 9);
    assert_eq!(slots[1].remaining_hours, 1);
    assert_eq!(slots[1].window_start, Date::parse("2024-01-08").unwrap());
    assert!(project_task_slots(&Vec::new()).is_empty());
}

#[test]
fn workload_of_a_developer() {
    let dev = developer(42, "Li", 8 * UNITS_PER_HOUR, true);
    let tasks = vec![
        task(1, "design", Some(12 * H), Some("2024-01-08"), Some("2024-01-09")),
        task(2, "dropped", Some(0), Some("2024-01-08"), Some("2024-01-09")),
    ];
    let report = get_developer_workload(&calendar(), &dev, &tasks, "2024-01-08", "2024-01-10", false).unwrap();
    assert_eq!(report.days.len(), 3);
    let d = &report.days[0];
    assert_eq!(d.developer_id, 42);
    assert_eq!(d.developer_name, "Li");
    assert_eq!(d.date, "2024-01-08");
    assert_eq!(d.allocated_hours, 8 * UNITS_PER_HOUR);
    assert_eq!(d.max_hours, 8 * UNITS_PER_HOUR);
    assert_eq!(d.available_hours, 0);
    assert!(!d.is_overtime);
    assert_eq!(d.tasks.len(), 1);
    assert_eq!(d.tasks[0].task_id, 1);
    assert_eq!(d.tasks[0].task_name, "design");
    assert_eq!(d.tasks[0].daily_hours, 8 * UNITS_PER_HOUR);
    assert_eq!(report.days[1].date, "2024-01-09");
    assert_eq!(report.days[1].allocated_hours, 4 * UNITS_PER_HOUR);
    assert_eq!(report.days[1].available_hours, 4 * UNITS_PER_HOUR);
    assert_eq!(report.days[2].date, "2024-01-10");
    assert_eq!(report.days[2].allocated_hours, 0);
    assert!(report.days[2].tasks.is_empty());
    assert!(report.unreachable.is_empty());
}

#[test]
fn workload_names_unreachable_tasks() {
    let dev = developer(1, "Li", 8 * UNITS_PER_HOUR, true);
    let tasks = vec![task(5, "weekend", Some(3 * H), Some("2024-01-13"), Some("2024-01-14"))];
    let report = get_developer_workload(&calendar(), &dev, &tasks, "2024-01-12", "2024-01-15", false).unwrap();
    assert_eq!(report.days.len(), 2);
    assert_eq!(report.unreachable.len(), 1);
    assert_eq!(report.unreachable[0].task_id, 5);
    assert_eq!(report.unreachable[0].remaining_hours, 3 * UNITS_PER_HOUR);
    let report = get_developer_workload(&calendar(), &dev, &tasks, "2024-01-12", "2024-01-15", true).unwrap();
    assert!(report.unreachable.is_empty());
    assert_eq!(report.days.len(), 4);
    assert!(report.days[1].is_overtime);
    assert_eq!(report.days[1].allocated_hours, 3 * UNITS_PER_HOUR);
}

#[test]
fn workload_rejects_malformed_dates() {
    let dev = developer(1, "Li", 8 * UNITS_PER_HOUR, true);
    let tasks = Vec::new();
    let r = get_developer_workload(&calendar(), &dev, &tasks, "yesterday", "2024-01-10", false);
    assert_eq!(r.err(), Some(ScheduleError::InvalidInput(InputFault::MalformedStartDate)));
    let r = get_developer_workload(&calendar(), &dev, &tasks, "2024-01-08", "2024-01-32", false);
    assert_eq!(r.err(), Some(ScheduleError::InvalidInput(InputFault::MalformedEndDate)));
    let r = get_developer_workload(&calendar(), &dev, &tasks, "", "", false);
    assert_eq!(r.err(), Some(ScheduleError::InvalidInput(InputFault::MalformedStartDate)));
}

#[test]
fn workload_rejects_what_the_engine_rejects() {
    let tasks = vec![task(1, "a", Some(H), Some("2024-01-08"), Some("2024-01-09"))];
    let dev = developer(1, "Li", 8 * UNITS_PER_HOUR, true);
    let r = get_developer_workload(&calendar(), &dev, &tasks, "2024-01-10", "2024-01-08", false);
    assert_eq!(r.err(), Some(ScheduleError::InvalidInput(InputFault::ReversedWindow)));
    let idle = developer(1, "Li", 0, true);
    let r = get_developer_workload(&calendar(), &idle, &tasks, "2024-01-08", "2024-01-10", false);
    assert_eq!(r.err(), Some(ScheduleError::InvalidInput(InputFault::NoCapacity)));
    let huge = vec![
        task(1, "a", Some(i64::MAX), Some("2024-01-08"), Some("2024-01-09")),
        task(2, "b", Some(i64::MAX), Some("2024-01-08"), Some("2024-01-09")),
        task(3, "c", Some(2), Some("2024-01-08"), Some("2024-01-09")),
    ];
    let r = get_developer_workload(&calendar(), &dev, &huge, "2024-01-08", "2024-01-10", false);
    assert_eq!(r.err(), Some(ScheduleError::InvalidInput(InputFault::EffortOverflow)));
}

#[test]
fn colours_of_the_task_types() {
    assert_eq!(task_type_color(Some("需求澄清")), "#1890ff");
    assert_eq!(task_type_color(Some("技术预研")), "#722ed1");
    assert_eq!(task_type_color(Some("产品设计")), "#13c2c2");
    assert_eq!(task_type_color(Some("UE设计")), "#eb2f96");
    assert_eq!(task_type_color(Some("架构设计")), "#fa8c16");
    assert_eq!(task_type_color(Some("详细设计")), "#a0d911");
    assert_eq!(task_type_color(Some("代码开发")), "#52c41a");
    assert_eq!(task_type_color(Some("代码检查")), "#2f54eb");
    assert_eq!(task_type_color(Some("演示")), "#fadb14");
    assert_eq!(task_type_color(Some("用例设计")), "#f5222d");
    assert_eq!(task_type_color(Some("测试执行")), "#faad14");
    assert_eq!(task_type_color(Some("应用检查")), "#ff7a45");
    assert_eq!(task_type_color(Some("JIRA BUG")), "#f5222d");
    assert_eq!(task_type_color(Some("other")), "#1890ff");
    assert_eq!(task_type_color(Some(" 演示")), "#1890ff");
    assert_eq!(task_type_color(None), "#1890ff");
}

#[test]
fn an_event_shows_its_task() {
    let mut t = task(17, "build", Some(12 * H), Some("2024-01-08"), Some("2024-01-31"));
    t.task_type = Some(String::from("代码开发"));
    t.owner_id = Some(-3);
    t.owner_name = Some(String::from("Li"));
    t.priority = Some(String::from("P1"));
    t.status = Some(String::from("进行中"));
    t.sprint_id = Some(4);
    t.sprint_name = Some(String::from("S4"));
    let events = get_calendar_events(&vec![t]);
    assert_eq!(events.len(), 1);
    let e = &events[0];
    assert_eq!(e.id, "task-17");
    assert_eq!(e.title, "build [Li]");
    assert_eq!(e.start, "2024-01-08");
    assert_eq!(e.end.as_deref(), Some("2024-02-01"));
    assert_eq!(e.resource_id.as_deref(), Some("-3"));
    assert_eq!(e.color.as_deref(), Some("#52c41a"));
    let p = e.ext_props.as_ref().unwrap();
    assert_eq!(p.task_id, 17);
    assert_eq!(p.task_type.as_deref(), Some("代码开发"));
    assert_eq!(p.priority.as_deref(), Some("P1"));
    assert_eq!(p.status.as_deref(), Some("进行中"));
    assert_eq!(p.owner_id, Some(-3));
    assert_eq!(p.owner_name.as_deref(), Some("Li"));
    assert_eq!(p.planned_hours, Some(12 * H));
    assert_eq!(p.sprint_id, Some(4));
    assert_eq!(p.sprint_name.as_deref(), Some("S4"));
}

#[test]
fn an_event_of_a_bare_task() {
    let events = get_calendar_events(&vec![
        task(0, "bare", None, None, None),
        task(i64::MIN, "odd", None, Some("soon"), Some("later")),
        task(i64::MAX, "leap", None, Some("2024-02-28"), Some("2024-02-28")),
    ]);
    assert_eq!(events.len(), 3);
    assert_eq!(events[0].id, "task-0");
    assert_eq!(events[0].title, "bare");
    assert_eq!(events[0].start, "");
    assert_eq!(events[0].end, None);
    assert_eq!(events[0].resource_id, None);
    assert_eq!(events[0].color.as_deref(), Some("#1890ff"));
    assert_eq!(events[0].ext_props.as_ref().unwrap().planned_hours, None);
    assert_eq!(events[1].id, "task--9223372036854775808");
    assert_eq!(events[1].start, "soon");
    assert_eq!(events[1].end.as_deref(), Some("later"));
    assert_eq!(events[2].id, "task-9223372036854775807");
    assert_eq!(events[2].end.as_deref(), Some("2024-02-29"));
    assert!(get_calendar_events(&Vec::new()).is_empty());
}

#[test]
fn the_event_of_the_last_day_of_all_keeps_its_end() {
    let last = Date::from_days(devplan::date::MAX_DAY_NUMBER).unwrap().to_iso_string();
    let events = get_calendar_events(&vec![task(1, "end", None, None, Some(last.as_str()))]);
    assert_eq!(events[0].end.as_deref(), Some(last.as_str()));
}

#[test]
fn resources_are_the_active_developers() {
    let rows = get_calendar_resources(&vec![
        developer(1, "Li", 8, true),
        developer(2, "Wang", 8, false),
        developer(30, "Zhao", 8, true),
    ]);
    assert_eq!(rows.len(), 2);
    assert_eq!(rows[0].id, "1");
    assert_eq!(rows[0].title, "Li");
    assert_eq!(rows[0].avatar_color.as_deref(), Some("#52c41a"));
    assert_eq!(rows[1].id, "30");
    assert_eq!(rows[1].title, "Zhao");
    assert!(get_calendar_resources(&Vec::new()).is_empty());
}
