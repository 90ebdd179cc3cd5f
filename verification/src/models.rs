//! The records that the planning application keeps and shows.
//!
//! Hours are whole units of work throughout, as in the allocation engine.

use vstd::prelude::*;
use crate::allocation::{WorkloadTask, WorkloadTaskView, share_views};
use crate::text::text_of;

verus! {

/// The outcome of a change to many records at once.
#[derive(Clone, Debug)]
pub struct BatchResult {
    pub success_count: usize,
    pub fail_count: usize,
    pub errors: Vec<String>,
}

/// One stored setting.
#[derive(Clone, Debug)]
pub struct AppSetting {
    pub key: String,
    pub value: String,
    pub category: String,
    pub updated_at: String,
}

/// How the assistant service is reached.
#[derive(Clone, Debug)]
pub struct LlmConfig {
    pub api_key: String,
    pub api_url: String,
    pub model: String,
    pub max_tokens: Option<i32>,
}

/// One column of a spreadsheet template and the field it feeds.
#[derive(Clone, Debug)]
pub struct TemplateColumn {
    pub excel_header: String,
    pub mapped_field: String,
    pub column_index: Option<usize>,
}

/// A spreadsheet template.
#[derive(Clone, Debug)]
pub struct ExcelTemplateConfig {
    pub column_mapping: Vec<TemplateColumn>,
    pub header_row: Option<i32>,
    pub default_sheet_name: Option<String>,
}

/// A project.
#[derive(Clone, Debug)]
pub struct Project {
    pub id: i64,
    pub name: String,
    pub code: String,
    pub description: String,
}

/// A sprint of a project.
#[derive(Clone, Debug)]
pub struct Sprint {
    pub id: i64,
    pub name: String,
    pub project_id: Option<i64>,
    pub start_date: Option<String>,
    pub end_date: Option<String>,
    pub phase: Option<String>,
}

/// What is needed to create a sprint.
#[derive(Clone, Debug)]
pub struct CreateSprintDto {
    pub name: String,
    pub project_id: Option<i64>,
    pub start_date: Option<String>,
    pub end_date: Option<String>,
    pub phase: Option<String>,
}

/// What is needed to create a project.
#[derive(Clone, Debug)]
pub struct CreateProjectDto {
    pub name: String,
    pub code: Option<String>,
    pub description: Option<String>,
}

/// One line of a stand-up entry, with the task it speaks of.
#[derive(Clone, Debug)]
pub struct StandupItem {
    pub text: String,
    pub task_id: Option<i64>,
}

/// What one developer reported at a stand-up meeting.
#[derive(Clone, Debug)]
pub struct StandupEntry {
    pub id: i64,
    pub meeting_id: i64,
    pub developer_id: i64,
    pub developer_name: String,
    pub done_items: Vec<StandupItem>,
    pub plan_items: Vec<StandupItem>,
    pub blockers: Vec<StandupItem>,
}

/// A stand-up meeting.
#[derive(Clone, Debug)]
pub struct StandupMeeting {
    pub id: i64,
    pub meeting_date: String,
    pub notes: Option<String>,
    pub created_at: String,
    pub entries: Vec<StandupEntry>,
}

/// The report of one developer in a request to save a meeting.
#[derive(Debug)]
pub struct SaveEntryRequest {
    pub developer_id: i64,
    pub done_items: Vec<StandupItem>,
    pub plan_items: Vec<StandupItem>,
    pub blockers: Vec<StandupItem>,
}

/// A request to save a stand-up meeting.
#[derive(Debug)]
pub struct SaveStandupRequest {
    pub meeting_date: String,
    pub notes: Option<String>,
    pub entries: Vec<SaveEntryRequest>,
}

/// Which tasks a listing asks for; a part that is `None` asks for all.
#[derive(Clone, Debug)]
pub struct TaskFilter {
    pub sprint_id: Option<i64>,
    pub owner_id: Option<i64>,
    pub status: Option<String>,
    pub task_type: Option<String>,
    pub priority: Option<String>,
    pub search: Option<String>,
}

impl Default for TaskFilter {
    /// The filter that asks for every task.
    fn default() -> (filter: TaskFilter)
        ensures
            filter.sprint_id is None,
            filter.owner_id is None,
            filter.status is None,
            filter.task_type is None,
            filter.priority is None,
            filter.search is None,
    {
        TaskFilter {
            sprint_id: None,
            owner_id: None,
            status: None,
            task_type: None,
            priority: None,
            search: None,
        }
    }
}

/// A developer who shares the ownership of a task.
#[derive(Clone, Debug)]
pub struct CoOwner {
    pub developer_id: i64,
    pub developer_name: String,
}

/// A task as the task store keeps it.
#[derive(Clone, Debug)]
pub struct Task {
    pub id: i64,
    pub external_id: Option<String>,
    pub task_type: Option<String>,
    pub name: String,
    pub description: Option<String>,
    pub owner_id: Option<i64>,
    pub owner_name: Option<String>,
    pub sprint_id: Option<i64>,
    pub sprint_name: Option<String>,
    pub priority: Option<String>,
    /// The first day of the task's window, written `YYYY-MM-DD`.
    pub planned_start: Option<String>,
    /// The last day of the task's window, written `YYYY-MM-DD`.
    pub planned_end: Option<String>,
    /// The planned effort, in units of work.
    pub planned_hours: Option<i64>,
    pub parent_task_id: Option<i64>,
    pub status: Option<String>,
    pub co_owners: Option<Vec<CoOwner>>,
}

/// A developer of the team.
#[derive(Clone, Debug)]
pub struct Developer {
    pub id: i64,
    pub name: String,
    pub roles: Vec<String>,
    pub skills: Vec<String>,
    /// The daily capacity, in units of work.
    pub max_hours_per_day: u64,
    pub avatar_color: String,
    pub is_active: bool,
}

impl Developer {
    /// The colours that new developers are shown in, in the order in which
    /// they are handed out.
    pub open spec fn default_color_names() -> Seq<Seq<char>> {
        seq![
            "#1890ff"@,
            "#52c41a"@,
            "#faad14"@,
            "#f5222d"@,
            "#722ed1"@,
            "#13c2c2"@,
            "#eb2f96"@,
            "#fa8c16"@,
            "#a0d911"@,
            "#2f54eb"@,
            "#fadb14"@,
        ]
    }

    /// The colours that new developers are shown in, in the order in which
    /// they are handed out.
    pub fn default_colors() -> (colors: Vec<&'static str>)
        ensures
            colors@.map_values(|c: &'static str| c@) == Developer::default_color_names(),
    {
        let mut colors: Vec<&'static str> = Vec::new();
        colors.push("#1890ff");
        colors.push("#52c41a");
        colors.push("#faad14");
        colors.push("#f5222d");
        colors.push("#722ed1");
        colors.push("#13c2c2");
        colors.push("#eb2f96");
        colors.push("#fa8c16");
        colors.push("#a0d911");
        colors.push("#2f54eb");
        colors.push("#fadb14");
        colors
    }
}

/// What a calendar event carries of its task.
#[derive(Clone, Debug)]
pub struct CalendarEventExtProps {
    pub task_id: i64,
    pub task_type: Option<String>,
    pub priority: Option<String>,
    pub status: Option<String>,
    pub owner_id: Option<i64>,
    pub owner_name: Option<String>,
    pub planned_hours: Option<i64>,
    pub sprint_id: Option<i64>,
    pub sprint_name: Option<String>,
}

/// A task as an event of the calendar display.
#[derive(Clone, Debug)]
pub struct CalendarEvent {
    pub id: String,
    pub title: String,
    pub start: String,
    /// The day after the task's last day: the display takes the end of an
    /// event as excluded.
    pub end: Option<String>,
    pub resource_id: Option<String>,
    pub color: Option<String>,
    pub ext_props: Option<CalendarEventExtProps>,
}

/// A developer as a row of the calendar display.
#[derive(Clone, Debug)]
pub struct CalendarResource {
    pub id: String,
    pub title: String,
    pub avatar_color: Option<String>,
}

/// The load of one developer on one day, as it is shown.
#[derive(Clone, Debug)]
pub struct DeveloperWorkload {
    pub developer_id: i64,
    pub developer_name: String,
    /// The day, written `YYYY-MM-DD`.
    pub date: String,
    pub allocated_hours: u64,
    pub max_hours: u64,
    pub available_hours: u64,
    pub tasks: Vec<WorkloadTask>,
    pub is_overtime: bool,
}

/// The load of a day as it is shown, over plain values.
pub struct DeveloperWorkloadView {
    pub developer_id: int,
    pub developer_name: Seq<char>,
    pub date: Seq<char>,
    pub allocated_hours: nat,
    pub max_hours: nat,
    pub available_hours: nat,
    pub tasks: Seq<WorkloadTaskView>,
    pub is_overtime: bool,
}

impl View for DeveloperWorkload {
    type V = DeveloperWorkloadView;

    open spec fn view(&self) -> DeveloperWorkloadView {
        DeveloperWorkloadView {
            developer_id: self.developer_id as int,
            developer_name: self.developer_name@,
            date: self.date@,
            allocated_hours: self.allocated_hours as nat,
            max_hours: self.max_hours as nat,
            available_hours: self.available_hours as nat,
            tasks: share_views(self.tasks@),
            is_overtime: self.is_overtime,
        }
    }
}

/// The views of a list of shown days.
pub open spec fn workload_views(days: Seq<DeveloperWorkload>) -> Seq<DeveloperWorkloadView> {
    days.map_values(|d: DeveloperWorkload| d@)
}

/// What an event carries of its task, over plain values.
pub struct CalendarEventExtPropsView {
    pub task_id: int,
    pub task_type: Option<Seq<char>>,
    pub priority: Option<Seq<char>>,
    pub status: Option<Seq<char>>,
    pub owner_id: Option<i64>,
    pub owner_name: Option<Seq<char>>,
    pub planned_hours: Option<i64>,
    pub sprint_id: Option<i64>,
    pub sprint_name: Option<Seq<char>>,
}

impl View for CalendarEventExtProps {
    type V = CalendarEventExtPropsView;

    open spec fn view(&self) -> CalendarEventExtPropsView {
        CalendarEventExtPropsView {
            task_id: self.task_id as int,
            task_type: text_of(self.task_type),
            priority: text_of(self.priority),
            status: text_of(self.status),
            owner_id: self.owner_id,
            owner_name: text_of(self.owner_name),
            planned_hours: self.planned_hours,
            sprint_id: self.sprint_id,
            sprint_name: text_of(self.sprint_name),
        }
    }
}

/// An event over plain values.
pub struct CalendarEventView {
    pub id: Seq<char>,
    pub title: Seq<char>,
    pub start: Seq<char>,
    pub end: Option<Seq<char>>,
    pub resource_id: Option<Seq<char>>,
    pub color: Option<Seq<char>>,
    pub ext_props: Option<CalendarEventExtPropsView>,
}

impl View for CalendarEvent {
    type V = CalendarEventView;

    open spec fn view(&self) -> CalendarEventView {
        CalendarEventView {
            id: self.id@,
            title: self.title@,
            start: self.start@,
            end: text_of(self.end),
            resource_id: text_of(self.resource_id),
            color: text_of(self.color),
            ext_props: match self.ext_props {
                Some(props) => Some(props@),
                None => None,
            },
        }
    }
}

/// A row of the display over plain values.
pub struct CalendarResourceView {
    pub id: Seq<char>,
    pub title: Seq<char>,
    pub avatar_color: Option<Seq<char>>,
}

impl View for CalendarResource {
    type V = CalendarResourceView;

    open spec fn view(&self) -> CalendarResourceView {
        CalendarResourceView {
            id: self.id@,
            title: self.title@,
            avatar_color: text_of(self.avatar_color),
        }
    }
}

} // verus!
