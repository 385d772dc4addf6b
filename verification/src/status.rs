//! The status of a task and the fixed cycle it moves through.

use vstd::prelude::*;

verus! {

/// Where a task stands. A task starts as `New`.
#[derive(Clone, Copy, Debug, PartialEq, Eq, Structural)]
pub enum TaskStatus {
    New,
    Progress,
    Stop,
    Done,
}

impl TaskStatus {
    /// The status that follows `self` in the cycle
    /// `New -> Progress -> Stop -> Done -> New`.
    pub open spec fn next_spec(self) -> TaskStatus {
        match self {
            TaskStatus::New => TaskStatus::Progress,
            TaskStatus::Progress => TaskStatus::Stop,
            TaskStatus::Stop => TaskStatus::Done,
            TaskStatus::Done => TaskStatus::New,
        }
    }

    /// The label shown for `self`.
    pub open spec fn label(self) -> Seq<char> {
        match self {
            TaskStatus::New => "新規"@,
            TaskStatus::Progress => "実行中"@,
            TaskStatus::Stop => "停止"@,
            TaskStatus::Done => "完了"@,
        }
    }

    /// The display label of the status.
    pub fn to_string(&self) -> (label: &'static str)
        ensures
            label@ == self.label(),
    {
        match self {
            TaskStatus::New => "新規",
            TaskStatus::Progress => "実行中",
            TaskStatus::Stop => "停止",
            TaskStatus::Done => "完了",
        }
    }

    /// The statuses in the order in which the list is sorted and summed up:
    /// what is new first, what is done last.
    pub fn standard_order() -> (order: Vec<TaskStatus>)
        ensures
            order@ == seq![
                TaskStatus::New,
                TaskStatus::Progress,
                TaskStatus::Stop,
                TaskStatus::Done,
            ],
    {
        vec![TaskStatus::New, TaskStatus::Progress, TaskStatus::Stop, TaskStatus::Done]
    }

    /// Advances the status by one step of the cycle.
    pub fn next_status(&self) -> (next: TaskStatus)
        ensures
            next == self.next_spec(),
    {
        match self {
            TaskStatus::New => TaskStatus::Progress,
            TaskStatus::Progress => TaskStatus::Stop,
            TaskStatus::Stop => TaskStatus::Done,
            TaskStatus::Done => TaskStatus::New,
        }
    }
}

} // verus!
