//! The closed vocabularies of the task store: the type, the priority and
//! the status of a task, each with the name under which it is stored.

use vstd::prelude::*;
use crate::text::same_text;

verus! {

/// What `str::trim` leaves of a text: the text without the white space at
/// its start and at its end.
pub uninterp spec fn trimmed(text: Seq<char>) -> Seq<char>;

/// Calls `str::trim`. Trusted: the result is what [`trimmed`] names for
/// this text.
#[verifier::external_body]
fn trim(text: &str) -> (r: &str)
    ensures
        r@ == trimmed(text@),
{
    text.trim()
}

/// The kind of work that a task is.
#[derive(Clone, Copy, Debug, PartialEq, Eq, Structural)]
pub enum TaskType {
    RequirementClarification,
    TechnicalResearch,
    ProductDesign,
    UeDesign,
    ArchitectureDesign,
    DetailedDesign,
    CodeDevelopment,
    CodeReview,
    Demo,
    TestCaseDesign,
    TestExecution,
    ApplicationCheck,
    JiraBug,
}

impl TaskType {
    /// The name under which the value is stored.
    pub open spec fn name(self) -> Seq<char> {
        match self {
            TaskType::RequirementClarification => "需求澄清"@,
            TaskType::TechnicalResearch => "技术预研"@,
            TaskType::ProductDesign => "产品设计"@,
            TaskType::UeDesign => "UE设计"@,
            TaskType::ArchitectureDesign => "架构设计"@,
            TaskType::DetailedDesign => "详细设计"@,
            TaskType::CodeDevelopment => "代码开发"@,
            TaskType::CodeReview => "代码检查"@,
            TaskType::Demo => "演示"@,
            TaskType::TestCaseDesign => "用例设计"@,
            TaskType::TestExecution => "测试执行"@,
            TaskType::ApplicationCheck => "应用检查"@,
            TaskType::JiraBug => "JIRA BUG"@,
        }
    }

    /// The value that is stored under `text`, if there is one.
    pub open spec fn named(text: Seq<char>) -> Option<TaskType> {
        if text == "需求澄清"@ {
            Some(TaskType::RequirementClarification)
        } else if text == "技术预研"@ {
            Some(TaskType::TechnicalResearch)
        } else if text == "产品设计"@ {
            Some(TaskType::ProductDesign)
        } else if text == "UE设计"@ {
            Some(TaskType::UeDesign)
        } else if text == "架构设计"@ {
            Some(TaskType::ArchitectureDesign)
        } else if text == "详细设计"@ {
            Some(TaskType::DetailedDesign)
        } else if text == "代码开发"@ {
            Some(TaskType::CodeDevelopment)
        } else if text == "代码检查"@ {
            Some(TaskType::CodeReview)
        } else if text == "演示"@ {
            Some(TaskType::Demo)
        } else if text == "用例设计"@ {
            Some(TaskType::TestCaseDesign)
        } else if text == "测试执行"@ {
            Some(TaskType::TestExecution)
        } else if text == "应用检查"@ {
            Some(TaskType::ApplicationCheck)
        } else if text == "JIRA BUG"@ {
            Some(TaskType::JiraBug)
        } else {
            None
        }
    }

    /// The names of all values, in the order of their declaration.
    pub open spec fn all_names() -> Seq<Seq<char>> {
        seq![
            "需求澄清"@,
            "技术预研"@,
            "产品设计"@,
            "UE设计"@,
            "架构设计"@,
            "详细设计"@,
            "代码开发"@,
            "代码检查"@,
            "演示"@,
            "用例设计"@,
            "测试执行"@,
            "应用检查"@,
            "JIRA BUG"@,
        ]
    }

    /// The names of all values, in the order of their declaration.
    pub fn all_values() -> (names: Vec<&'static str>)
        ensures
            names@.map_values(|n: &'static str| n@) == TaskType::all_names(),
    {
        let mut names: Vec<&'static str> = Vec::new();
        names.push("需求澄清");
        names.push("技术预研");
        names.push("产品设计");
        names.push("UE设计");
        names.push("架构设计");
        names.push("详细设计");
        names.push("代码开发");
        names.push("代码检查");
        names.push("演示");
        names.push("用例设计");
        names.push("测试执行");
        names.push("应用检查");
        names.push("JIRA BUG");
        names
    }

    /// The value that is stored under exactly `name`.
    pub fn from_name(name: &str) -> (r: Option<TaskType>)
        ensures
            r == TaskType::named(name@),
    {
        if same_text(name, "需求澄清") {
            Some(TaskType::RequirementClarification)
        } else if same_text(name, "技术预研") {
            Some(TaskType::TechnicalResearch)
        } else if same_text(name, "产品设计") {
            Some(TaskType::ProductDesign)
        } else if same_text(name, "UE设计") {
            Some(TaskType::UeDesign)
        } else if same_text(name, "架构设计") {
            Some(TaskType::ArchitectureDesign)
        } else if same_text(name, "详细设计") {
            Some(TaskType::DetailedDesign)
        } else if same_text(name, "代码开发") {
            Some(TaskType::CodeDevelopment)
        } else if same_text(name, "代码检查") {
            Some(TaskType::CodeReview)
        } else if same_text(name, "演示") {
            Some(TaskType::Demo)
        } else if same_text(name, "用例设计") {
            Some(TaskType::TestCaseDesign)
        } else if same_text(name, "测试执行") {
            Some(TaskType::TestExecution)
        } else if same_text(name, "应用检查") {
            Some(TaskType::ApplicationCheck)
        } else if same_text(name, "JIRA BUG") {
            Some(TaskType::JiraBug)
        } else {
            None
        }
    }

    /// The value that is stored under `s`; white space around the name
    /// is passed over.
    pub fn from_str(s: &str) -> (r: Option<TaskType>)
        ensures
            r == TaskType::named(trimmed(s@)),
    {
        TaskType::from_name(trim(s))
    }

    /// The name under which the value is stored.
    pub fn as_str(&self) -> (name: &'static str)
        ensures
            name@ == self.name(),
    {
        match self {
            TaskType::RequirementClarification => "需求澄清",
            TaskType::TechnicalResearch => "技术预研",
            TaskType::ProductDesign => "产品设计",
            TaskType::UeDesign => "UE设计",
            TaskType::ArchitectureDesign => "架构设计",
            TaskType::DetailedDesign => "详细设计",
            TaskType::CodeDevelopment => "代码开发",
            TaskType::CodeReview => "代码检查",
            TaskType::Demo => "演示",
            TaskType::TestCaseDesign => "用例设计",
            TaskType::TestExecution => "测试执行",
            TaskType::ApplicationCheck => "应用检查",
            TaskType::JiraBug => "JIRA BUG",
        }
    }

    /// Each value is found again under its name, and under no other
    /// text.
    pub proof fn lemma_name_round_trip(self, text: Seq<char>)
        ensures
            TaskType::named(self.name()) == Some(self),
            TaskType::named(text) == Some(self) ==> text == self.name(),
    {
        reveal_strlit("需求澄清");
        reveal_strlit("技术预研");
        reveal_strlit("产品设计");
        reveal_strlit("UE设计");
        reveal_strlit("架构设计");
        reveal_strlit("详细设计");
        reveal_strlit("代码开发");
        reveal_strlit("代码检查");
        reveal_strlit("演示");
        reveal_strlit("用例设计");
        reveal_strlit("测试执行");
        reveal_strlit("应用检查");
        reveal_strlit("JIRA BUG");
        // The solver tells the other names apart unaided.
        assert("需求澄清"@[0] != "技术预研"@[0]);
        assert("需求澄清"@[0] != "产品设计"@[0]);
        assert("需求澄清"@[0] != "UE设计"@[0]);
        assert("需求澄清"@[0] != "架构设计"@[0]);
        assert("需求澄清"@[0] != "详细设计"@[0]);
        assert("需求澄清"@.len() != "演示"@.len());
        assert("需求澄清"@[0] != "用例设计"@[0]);
        assert("需求澄清"@[0] != "测试执行"@[0]);
        assert("需求澄清"@[0] != "应用检查"@[0]);
        assert("代码开发"@[2] != "代码检查"@[2]);
    }
}

/// How urgent a task is; `P0` is the most urgent.
#[derive(Clone, Copy, Debug, PartialEq, Eq, Structural)]
pub enum Priority {
    P0,
    P1,
    P2,
}

impl Priority {
    /// The name under which the value is stored.
    pub open spec fn name(self) -> Seq<char> {
        match self {
            Priority::P0 => "P0"@,
            Priority::P1 => "P1"@,
            Priority::P2 => "P2"@,
        }
    }

    /// The value that is stored under `text`, if there is one.
    pub open spec fn named(text: Seq<char>) -> Option<Priority> {
        if text == "P0"@ {
            Some(Priority::P0)
        } else if text == "P1"@ {
            Some(Priority::P1)
        } else if text == "P2"@ {
            Some(Priority::P2)
        } else {
            None
        }
    }

    /// The names of all values, in the order of their declaration.
    pub open spec fn all_names() -> Seq<Seq<char>> {
        seq![
            "P0"@,
            "P1"@,
            "P2"@,
        ]
    }

    /// The names of all values, in the order of their declaration.
    pub fn all_values() -> (names: Vec<&'static str>)
        ensures
            names@.map_values(|n: &'static str| n@) == Priority::all_names(),
    {
        let mut names: Vec<&'static str> = Vec::new();
        names.push("P0");
        names.push("P1");
        names.push("P2");
        names
    }

    /// The value that is stored under exactly `name`.
    pub fn from_name(name: &str) -> (r: Option<Priority>)
        ensures
            r == Priority::named(name@),
    {
        if same_text(name, "P0") {
            Some(Priority::P0)
        } else if same_text(name, "P1") {
            Some(Priority::P1)
        } else if same_text(name, "P2") {
            Some(Priority::P2)
        } else {
            None
        }
    }

    /// The value that is stored under `s`; white space around the name
    /// is passed over.
    pub fn from_str(s: &str) -> (r: Option<Priority>)
        ensures
            r == Priority::named(trimmed(s@)),
    {
        Priority::from_name(trim(s))
    }

    /// The name under which the value is stored.
    pub fn as_str(&self) -> (name: &'static str)
        ensures
            name@ == self.name(),
    {
        match self {
            Priority::P0 => "P0",
            Priority::P1 => "P1",
            Priority::P2 => "P2",
        }
    }

    /// Each value is found again under its name, and under no other
    /// text.
    pub proof fn lemma_name_round_trip(self, text: Seq<char>)
        ensures
            Priority::named(self.name()) == Some(self),
            Priority::named(text) == Some(self) ==> text == self.name(),
    {
        reveal_strlit("P0");
        reveal_strlit("P1");
        reveal_strlit("P2");
        // The solver tells the other names apart unaided.
        assert("P0"@[1] != "P1"@[1]);
    }
}

/// How far a task has come.
#[derive(Clone, Copy, Debug, PartialEq, Eq, Structural)]
pub enum TaskStatus {
    NotStarted,
    InProgress,
    Completed,
    Paused,
    Cancelled,
}

impl TaskStatus {
    /// The name under which the value is stored.
    pub open spec fn name(self) -> Seq<char> {
        match self {
            TaskStatus::NotStarted => "待开始"@,
            TaskStatus::InProgress => "进行中"@,
            TaskStatus::Completed => "已完成"@,
            TaskStatus::Paused => "暂停中"@,
            TaskStatus::Cancelled => "已取消"@,
        }
    }

    /// The value that is stored under `text`, if there is one.
    pub open spec fn named(text: Seq<char>) -> Option<TaskStatus> {
        if text == "待开始"@ {
            Some(TaskStatus::NotStarted)
        } else if text == "进行中"@ {
            Some(TaskStatus::InProgress)
        } else if text == "已完成"@ {
            Some(TaskStatus::Completed)
        } else if text == "暂停中"@ {
            Some(TaskStatus::Paused)
        } else if text == "已取消"@ {
            Some(TaskStatus::Cancelled)
        } else {
            None
        }
    }

    /// The names of all values, in the order of their declaration.
    pub open spec fn all_names() -> Seq<Seq<char>> {
        seq![
            "待开始"@,
            "进行中"@,
            "已完成"@,
            "暂停中"@,
            "已取消"@,
        ]
    }

    /// The names of all values, in the order of their declaration.
    pub fn all_values() -> (names: Vec<&'static str>)
        ensures
            names@.map_values(|n: &'static str| n@) == TaskStatus::all_names(),
    {
        let mut names: Vec<&'static str> = Vec::new();
        names.push("待开始");
        names.push("进行中");
        names.push("已完成");
        names.push("暂停中");
        names.push("已取消");
        names
    }

    /// The value that is stored under exactly `name`.
    pub fn from_name(name: &str) -> (r: Option<TaskStatus>)
        ensures
            r == TaskStatus::named(name@),
    {
        if same_text(name, "待开始") {
            Some(TaskStatus::NotStarted)
        } else if same_text(name, "进行中") {
            Some(TaskStatus::InProgress)
        } else if same_text(name, "已完成") {
            Some(TaskStatus::Completed)
        } else if same_text(name, "暂停中") {
            Some(TaskStatus::Paused)
        } else if same_text(name, "已取消") {
            Some(TaskStatus::Cancelled)
        } else {
            None
        }
    }

    /// The value that is stored under `s`; white space around the name
    /// is passed over.
    pub fn from_str(s: &str) -> (r: Option<TaskStatus>)
        ensures
            r == TaskStatus::named(trimmed(s@)),
    {
        TaskStatus::from_name(trim(s))
    }

    /// The name under which the value is stored.
    pub fn as_str(&self) -> (name: &'static str)
        ensures
            name@ == self.name(),
    {
        match self {
            TaskStatus::NotStarted => "待开始",
            TaskStatus::InProgress => "进行中",
            TaskStatus::Completed => "已完成",
            TaskStatus::Paused => "暂停中",
            TaskStatus::Cancelled => "已取消",
        }
    }

    /// Each value is found again under its name, and under no other
    /// text.
    pub proof fn lemma_name_round_trip(self, text: Seq<char>)
        ensures
            TaskStatus::named(self.name()) == Some(self),
            TaskStatus::named(text) == Some(self) ==> text == self.name(),
    {
        reveal_strlit("待开始");
        reveal_strlit("进行中");
        reveal_strlit("已完成");
        reveal_strlit("暂停中");
        reveal_strlit("已取消");
        // The solver tells the other names apart unaided.
        assert("待开始"@[0] != "进行中"@[0]);
        assert("已完成"@[1] != "已取消"@[1]);
    }
}

} // verus!
