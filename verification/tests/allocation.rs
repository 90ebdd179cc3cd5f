use devplan::allocation::{
    allocate, replay_range, Allocation, TaskSlot, WorkloadDay, UNITS_PER_HOUR,
};
use devplan::calendar::WorkdayCalendar;
use devplan::holiday_sync::{sync_holidays_for_year, HolidayApiResponse, HolidayEntry, SourceReply};
use devplan::overtime::{OvertimeConfig, WeekendMode};
use devplan::date::Date;
use devplan::error::{InputFault, ScheduleError};

const H: u64 = UNITS_PER_HOUR;

fn day(text: &str) -> Date {
    Date::parse(text).unwrap()
}

fn plain_calendar() -> WorkdayCalendar {
    WorkdayCalendar::new(OvertimeConfig { weekend_mode: WeekendMode::Off, custom_dates: Vec::new() })
}

fn calendar(mode: WeekendMode, holidays: &[&str], makeup: &[&str]) -> WorkdayCalendar {
    let mut cal = WorkdayCalendar::new(OvertimeConfig { weekend_mode: mode, custom_dates: Vec::new() });
    let mut entries = Vec::new();
    for h in holidays {
        entries.push(HolidayEntry { holiday: true, name: String::from("off"), date: String::from(*h) });
    }
    for m in makeup {
        entries.push(HolidayEntry { holiday: false, name: String::from("on"), date: String::from(*m) });
    }
    let reply = SourceReply::Answered(HolidayApiResponse { code: 0, holiday: Some(entries) });
    sync_holidays_for_year(&mut cal, 2024, &reply).unwrap();
    cal
}

fn slot(id: i64, hours: u64, start: &str, end: &str) -> TaskSlot {
    TaskSlot {
        task_id: id,
        task_name: format!("task {}", id),
        remaining_hours: hours,
        window_start: day(start),
        window_end: day(end),
    }
}

fn run(cal: &WorkdayCalendar, cap: u64, slots: &Vec<TaskSlot>, from: &str, to: &str, overtime: bool) -> Allocation {
    allocate(cal, cap, slots, &day(from), &day(to), overtime).unwrap()
}

fn shares(d: &WorkloadDay) -> Vec<(i64, u64)> {
    d.tasks.iter().map(|t| (t.task_id, t.daily_hours)).collect()
}

fn loads(a: &Allocation) -> Vec<(String, u64)> {
    a.days.iter().map(|d| (d.date.to_iso_string(), d.allocated_hours)).collect()
}

fn placed(a: &Allocation, id: i64) -> u64 {
    a.days.iter().flat_map(|d| d.tasks.iter()).filter(|t| t.task_id == id).map(|t| t.daily_hours).sum()
}

// 2024-01-08 is a Monday.

#[test]
fn one_task_is_front_loaded() {
    let slots = vec![slot(1, 12 * H, "2024-01-08", "2024-01-09")];
    let a = run(&plain_calendar(), 8 * H, &slots, "2024-01-08", "2024-01-09", false);
    assert_eq!(loads(&a), vec![(String::from("2024-01-08"), 8 * H), (String::from("2024-01-09"), 4 * H)]);
    assert_eq!(shares(&a.days[0]), vec![(1, 8 * H)]);
    assert_eq!(shares(&a.days[1]), vec![(1, 4 * H)]);
    assert_eq!(a.days[0].tasks[0].task_name, "task 1");
    assert_eq!(a.days[0].max_hours, 8 * H);
    assert_eq!(a.days[0].available_hours, 0);
    assert_eq!(a.days[1].available_hours, 4 * H);
    assert!(!a.days[0].is_overtime);
    assert!(a.unreachable.is_empty());
}

#[test]
fn two_tasks_balance_over_three_days() {
    let slots = vec![
        slot(1, 12 * H, "2024-01-08", "2024-01-10"),
        slot(2, 12 * H, "2024-01-08", "2024-01-10"),
    ];
    let a = run(&plain_calendar(), 8 * H, &slots, "2024-01-08", "2024-01-10", false);
    assert_eq!(
        loads(&a),
        vec![
            (String::from("2024-01-08"), 8 * H),
            (String::from("2024-01-09"), 8 * H),
            (String::from("2024-01-10"), 8 * H),
        ]
    );
    assert_eq!(shares(&a.days[0]), vec![(1, 8 * H)]);
    assert_eq!(shares(&a.days[1]), vec![(1, 4 * H), (2, 4 * H)]);
    assert_eq!(shares(&a.days[2]), vec![(2, 8 * H)]);
    assert_eq!(placed(&a, 1), 12 * H);
    assert_eq!(placed(&a, 2), 12 * H);
    assert!(a.unreachable.is_empty());
}

#[test]
fn a_window_of_holidays_is_unreachable() {
    let cal = calendar(WeekendMode::Off, &["2024-01-09", "2024-01-10"], &[]);
    let slots = vec![slot(7, 12 * H, "2024-01-09", "2024-01-10")];
    let a = run(&cal, 8 * H, &slots, "2024-01-08", "2024-01-12", false);
    assert_eq!(a.unreachable.len(), 1);
    assert_eq!(a.unreachable[0].task_id, 7);
    assert_eq!(a.unreachable[0].task_name, "task 7");
    assert_eq!(a.unreachable[0].remaining_hours, 12 * H);
    assert_eq!(a.unreachable[0].window_end, day("2024-01-10"));
    assert_eq!(placed(&a, 7), 0);
    assert_eq!(
        loads(&a),
        vec![
            (String::from("2024-01-08"), 0),
            (String::from("2024-01-11"), 0),
            (String::from("2024-01-12"), 0),
        ]
    );
}

#[test]
fn a_worked_saturday_takes_the_task() {
    let cal = calendar(WeekendMode::Saturday, &[], &[]);
    let slots = vec![slot(3, 10 * H, "2024-01-13", "2024-01-14")];
    let a = run(&cal, 8 * H, &slots, "2024-01-13", "2024-01-14", false);
    assert_eq!(loads(&a), vec![(String::from("2024-01-13"), 10 * H)]);
    assert_eq!(shares(&a.days[0]), vec![(3, 10 * H)]);
    assert!(!a.days[0].is_overtime);
    assert_eq!(a.days[0].available_hours, 0);
    assert!(a.unreachable.is_empty());
}

#[test]
fn the_last_day_takes_all_that_is_left() {
    let slots = vec![slot(1, 30 * H, "2024-01-08", "2024-01-09")];
    let a = run(&plain_calendar(), 8 * H, &slots, "2024-01-08", "2024-01-09", false);
    assert_eq!(loads(&a), vec![(String::from("2024-01-08"), 8 * H), (String::from("2024-01-09"), 22 * H)]);
    assert_eq!(a.days[1].max_hours, 8 * H);
    assert_eq!(a.days[1].available_hours, 0);
    assert!(a.unreachable.is_empty());
}

#[test]
fn a_forced_task_leaves_nothing_for_those_behind_it() {
    // Task 1 ends on Monday and is forced; task 2 has until Tuesday.
    let slots = vec![
        slot(2, 6 * H, "2024-01-08", "2024-01-09"),
        slot(1, 10 * H, "2024-01-08", "2024-01-08"),
    ];
    let a = run(&plain_calendar(), 8 * H, &slots, "2024-01-08", "2024-01-09", false);
    assert_eq!(shares(&a.days[0]), vec![(1, 10 * H)]);
    assert_eq!(a.days[0].allocated_hours, 10 * H);
    assert_eq!(shares(&a.days[1]), vec![(2, 6 * H)]);
}

#[test]
fn two_forced_tasks_are_both_placed() {
    let slots = vec![
        slot(1, 10 * H, "2024-01-08", "2024-01-08"),
        slot(2, 5 * H, "2024-01-08", "2024-01-08"),
    ];
    let a = run(&plain_calendar(), 8 * H, &slots, "2024-01-08", "2024-01-08", false);
    assert_eq!(shares(&a.days[0]), vec![(1, 10 * H), (2, 5 * H)]);
    assert_eq!(a.days[0].allocated_hours, 15 * H);
    assert_eq!(a.days[0].available_hours, 0);
}

#[test]
fn the_earliest_deadline_is_served_first() {
    let slots = vec![
        slot(1, 6 * H, "2024-01-08", "2024-01-12"),
        slot(2, 6 * H, "2024-01-08", "2024-01-10"),
        slot(3, 6 * H, "2024-01-08", "2024-01-11"),
    ];
    let a = run(&plain_calendar(), 8 * H, &slots, "2024-01-08", "2024-01-12", false);
    assert_eq!(shares(&a.days[0]), vec![(2, 6 * H), (3, 2 * H)]);
    assert_eq!(shares(&a.days[1]), vec![(3, 4 * H), (1, 4 * H)]);
    assert_eq!(shares(&a.days[2]), vec![(1, 2 * H)]);
    assert_eq!(shares(&a.days[3]), Vec::<(i64, u64)>::new());
    assert_eq!(shares(&a.days[4]), Vec::<(i64, u64)>::new());
    assert_eq!(a.days.len(), 5);
}

#[test]
fn equal_deadlines_keep_the_order_of_the_slots() {
    let slots = vec![
        slot(5, 3 * H, "2024-01-08", "2024-01-09"),
        slot(4, 3 * H, "2024-01-08", "2024-01-09"),
        slot(6, 3 * H, "2024-01-08", "2024-01-09"),
    ];
    let a = run(&plain_calendar(), 8 * H, &slots, "2024-01-08", "2024-01-09", false);
    assert_eq!(shares(&a.days[0]), vec![(5, 3 * H), (4, 3 * H), (6, 2 * H)]);
    assert_eq!(shares(&a.days[1]), vec![(6, 1 * H)]);
}

#[test]
fn days_before_the_window_are_replayed_but_not_reported() {
    // The task starts on Monday; the report opens on Wednesday.
    let slots = vec![slot(1, 20 * H, "2024-01-08", "2024-01-11")];
    let a = run(&plain_calendar(), 8 * H, &slots, "2024-01-10", "2024-01-11", false);
    assert_eq!(loads(&a), vec![(String::from("2024-01-10"), 4 * H), (String::from("2024-01-11"), 0)]);
    assert_eq!(shares(&a.days[0]), vec![(1, 4 * H)]);
    assert!(a.unreachable.is_empty());
}

#[test]
fn a_task_that_ends_after_the_report_is_no_diagnostic() {
    let slots = vec![slot(1, 40 * H, "2024-01-08", "2024-01-19")];
    let a = run(&plain_calendar(), 8 * H, &slots, "2024-01-08", "2024-01-09", false);
    assert_eq!(loads(&a), vec![(String::from("2024-01-08"), 8 * H), (String::from("2024-01-09"), 8 * H)]);
    assert!(a.unreachable.is_empty());
}

#[test]
fn weekends_and_holidays_are_skipped() {
    let cal = calendar(WeekendMode::Off, &["2024-01-15"], &[]);
    let slots = vec![slot(1, 20 * H, "2024-01-12", "2024-01-17")];
    let a = run(&cal, 8 * H, &slots, "2024-01-12", "2024-01-17", false);
    assert_eq!(
        loads(&a),
        vec![
            (String::from("2024-01-12"), 8 * H),
            (String::from("2024-01-16"), 8 * H),
            (String::from("2024-01-17"), 4 * H),
        ]
    );
}

#[test]
fn a_makeup_workday_is_allocated() {
    let cal = calendar(WeekendMode::Off, &[], &["2024-01-13"]);
    let slots = vec![slot(1, 12 * H, "2024-01-12", "2024-01-14")];
    let a = run(&cal, 8 * H, &slots, "2024-01-12", "2024-01-14", false);
    assert_eq!(loads(&a), vec![(String::from("2024-01-12"), 8 * H), (String::from("2024-01-13"), 4 * H)]);
    assert!(!a.days[1].is_overtime);
}

#[test]
fn overtime_works_the_days_off_inside_a_window() {
    let slots = vec![slot(1, 20 * H, "2024-01-12", "2024-01-14")];
    let a = run(&plain_calendar(), 8 * H, &slots, "2024-01-12", "2024-01-16", true);
    assert_eq!(
        loads(&a),
        vec![
            (String::from("2024-01-12"), 8 * H),
            (String::from("2024-01-13"), 8 * H),
            (String::from("2024-01-14"), 4 * H),
            (String::from("2024-01-15"), 0),
            (String::from("2024-01-16"), 0),
        ]
    );
    assert!(!a.days[0].is_overtime);
    assert!(a.days[1].is_overtime);
    assert!(a.days[2].is_overtime);
    assert!(!a.days[3].is_overtime);
}

#[test]
fn overtime_does_not_reach_beyond_the_windows() {
    let slots = vec![slot(1, 4 * H, "2024-01-12", "2024-01-13")];
    let a = run(&plain_calendar(), 8 * H, &slots, "2024-01-12", "2024-01-15", true);
    assert_eq!(
        loads(&a),
        vec![
            (String::from("2024-01-12"), 4 * H),
            (String::from("2024-01-13"), 0),
            (String::from("2024-01-15"), 0),
        ]
    );
    assert!(a.days[1].is_overtime);
}

#[test]
fn overtime_reaches_a_holiday_window() {
    let cal = calendar(WeekendMode::Off, &["2024-01-09", "2024-01-10"], &[]);
    let slots = vec![slot(7, 12 * H, "2024-01-09", "2024-01-10")];
    let a = run(&cal, 8 * H, &slots, "2024-01-09", "2024-01-10", true);
    assert_eq!(loads(&a), vec![(String::from("2024-01-09"), 8 * H), (String::from("2024-01-10"), 4 * H)]);
    assert!(a.days[0].is_overtime && a.days[1].is_overtime);
    assert!(a.unreachable.is_empty());
}

#[test]
fn without_slots_every_worked_day_is_empty() {
    let a = run(&plain_calendar(), 8 * H, &Vec::new(), "2024-01-12", "2024-01-15", true);
    assert_eq!(loads(&a), vec![(String::from("2024-01-12"), 0), (String::from("2024-01-15"), 0)]);
    assert_eq!(a.days[0].available_hours, 8 * H);
    assert!(a.days[0].tasks.is_empty());
    assert!(a.unreachable.is_empty());
}

#[test]
fn a_reversed_task_window_is_unreachable() {
    let slots = vec![slot(1, 4 * H, "2024-01-10", "2024-01-08")];
    let a = run(&plain_calendar(), 8 * H, &slots, "2024-01-08", "2024-01-12", false);
    assert_eq!(placed(&a, 1), 0);
    assert_eq!(a.unreachable.len(), 1);
    assert_eq!(a.unreachable[0].remaining_hours, 4 * H);
}

#[test]
fn a_slot_without_effort_is_neither_placed_nor_reported() {
    let slots = vec![slot(1, 0, "2024-01-13", "2024-01-14"), slot(2, 0, "2024-01-08", "2024-01-09")];
    let a = run(&plain_calendar(), 8 * H, &slots, "2024-01-08", "2024-01-14", false);
    assert!(a.days.iter().all(|d| d.tasks.is_empty() && d.allocated_hours == 0));
    assert!(a.unreachable.is_empty());
}

#[test]
fn a_reversed_report_window_is_rejected() {
    let slots = vec![slot(1, 4 * H, "2024-01-08", "2024-01-09")];
    let r = allocate(&plain_calendar(), 8 * H, &slots, &day("2024-01-10"), &day("2024-01-09"), false);
    assert_eq!(r.err(), Some(ScheduleError::InvalidInput(InputFault::ReversedWindow)));
}

#[test]
fn a_developer_without_capacity_is_rejected() {
    let slots = vec![slot(1, 4 * H, "2024-01-08", "2024-01-09")];
    let r = allocate(&plain_calendar(), 0, &slots, &day("2024-01-08"), &day("2024-01-09"), false);
    assert_eq!(r.err(), Some(ScheduleError::InvalidInput(InputFault::NoCapacity)));
    let r = allocate(&plain_calendar(), 0, &slots, &day("2024-01-10"), &day("2024-01-09"), false);
    assert_eq!(r.err(), Some(ScheduleError::InvalidInput(InputFault::ReversedWindow)));
}

#[test]
fn efforts_beyond_the_counter_are_rejected() {
    let slots = vec![
        slot(1, u64::MAX, "2024-01-08", "2024-01-09"),
        slot(2, 1, "2024-01-08", "2024-01-09"),
    ];
    let r = allocate(&plain_calendar(), 8 * H, &slots, &day("2024-01-08"), &day("2024-01-09"), false);
    assert_eq!(r.err(), Some(ScheduleError::InvalidInput(InputFault::EffortOverflow)));
    let one = vec![slot(1, u64::MAX, "2024-01-08", "2024-01-09")];
    let a = run(&plain_calendar(), 8 * H, &one, "2024-01-08", "2024-01-09", false);
    assert_eq!(a.days[0].allocated_hours, 8 * H);
    assert_eq!(a.days[1].allocated_hours, u64::MAX - 8 * H);
}

#[test]
fn a_single_day_window_on_a_single_day_report() {
    let slots = vec![slot(1, 3 * H, "2024-01-08", "2024-01-08")];
    let a = run(&plain_calendar(), 8 * H, &slots, "2024-01-08", "2024-01-08", false);
    assert_eq!(loads(&a), vec![(String::from("2024-01-08"), 3 * H)]);
    assert_eq!(a.days[0].available_hours, 5 * H);
}

fn check_laws(cal: &WorkdayCalendar, cap: u64, slots: &Vec<TaskSlot>, from: &str, to: &str, overtime: bool) {
    // Run from the first window start, so that every grant is reported.
    let a = run(cal, cap, slots, from, to, overtime);
    let last = day(to);
    for s in slots {
        let stranded = a.unreachable.iter().any(|u| u.task_id == s.task_id);
        if s.window_end <= last {
            if stranded {
                assert_eq!(placed(&a, s.task_id), 0);
            } else {
                assert_eq!(placed(&a, s.task_id), s.remaining_hours, "task {}", s.task_id);
            }
        } else {
            assert!(placed(&a, s.task_id) <= s.remaining_hours);
        }
    }
    for d in &a.days {
        let sum: u64 = d.tasks.iter().map(|t| t.daily_hours).sum();
        assert_eq!(sum, d.allocated_hours);
        assert_eq!(d.max_hours, cap);
        assert_eq!(d.available_hours, cap.saturating_sub(d.allocated_hours));
        assert!(d.tasks.iter().all(|t| t.daily_hours > 0));
        if d.allocated_hours > cap {
            // Some task of the day had its last chance: no later day of
            // the report serves it.
            let forced = d.tasks.iter().any(|t| {
                a.days.iter().filter(|e| e.date > d.date).all(|e| e.tasks.iter().all(|u| u.task_id != t.task_id))
            });
            assert!(forced);
        }
    }
    for w in a.days.windows(2) {
        assert!(w[0].date < w[1].date);
    }
}

#[test]
fn conservation_and_capacity_on_mixed_plans() {
    let cal = calendar(WeekendMode::Saturday, &["2024-01-10", "2024-01-17"], &["2024-01-21"]);
    let slots = vec![
        slot(1, 13 * H + 250, "2024-01-08", "2024-01-12"),
        slot(2, 7 * H, "2024-01-09", "2024-01-10"),
        slot(3, 40 * H, "2024-01-08", "2024-01-26"),
        slot(4, 5 * H, "2024-01-14", "2024-01-14"),
        slot(5, 9 * H + 1, "2024-01-17", "2024-01-17"),
        slot(6, 3, "2024-01-20", "2024-01-22"),
        slot(7, 100 * H, "2024-01-22", "2024-01-24"),
    ];
    check_laws(&cal, 8 * H, &slots, "2024-01-08", "2024-01-31", false);
    check_laws(&cal, 8 * H, &slots, "2024-01-08", "2024-01-31", true);
    check_laws(&cal, 1, &slots, "2024-01-08", "2024-01-31", true);
    check_laws(&cal, 6 * H + 500, &slots, "2024-01-08", "2024-01-20", false);
    check_laws(&plain_calendar(), 7 * H, &slots, "2024-01-08", "2024-02-15", false);
}

#[test]
fn replay_range_spans_the_windows_and_the_report() {
    let slots = vec![
        slot(1, H, "2024-01-05", "2024-01-09"),
        slot(2, H, "2024-01-10", "2024-02-20"),
    ];
    assert_eq!(
        replay_range(&slots, &day("2024-01-08"), &day("2024-01-12")),
        (day("2024-01-05"), day("2024-02-20"))
    );
    assert_eq!(
        replay_range(&slots, &day("2024-01-01"), &day("2024-03-01")),
        (day("2024-01-01"), day("2024-03-01"))
    );
    assert_eq!(
        replay_range(&Vec::new(), &day("2024-01-08"), &day("2024-01-12")),
        (day("2024-01-08"), day("2024-01-12"))
    );
}

#[test]
fn one_unit_is_a_thousandth_of_an_hour() {
    assert_eq!(UNITS_PER_HOUR, 1000);
}
