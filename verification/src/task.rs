//! A single task: an id, a text and a status.

use vstd::prelude::*;

use crate::status::TaskStatus;

verus! {

/// One entry of the to-do list.
///
/// The id is given when the task is made and is never changed by this
/// library; the content is fixed as well. Only the status moves.
#[derive(Debug)]
pub struct Task {
    pub id: u32,
    pub content: String,
    pub status: TaskStatus,
}

/// What a task is, mathematically: its id, the characters of its content,
/// and its status.
pub struct TaskView {
    pub id: nat,
    pub content: Seq<char>,
    pub status: TaskStatus,
}

impl TaskView {
    /// The task that `create` makes: the given id and content, status `New`.
    pub open spec fn created(id: nat, content: Seq<char>) -> TaskView {
        TaskView { id, content, status: TaskStatus::New }
    }

    /// The same task with another status.
    pub open spec fn with_status(self, status: TaskStatus) -> TaskView {
        TaskView { id: self.id, content: self.content, status }
    }
}

impl View for Task {
    type V = TaskView;

    open spec fn view(&self) -> TaskView {
        TaskView { id: self.id as nat, content: self.content@, status: self.status }
    }
}

/// The tasks of a sequence, each as the value it stands for.
pub open spec fn views(tasks: Seq<Task>) -> Seq<TaskView> {
    tasks.map_values(|t: Task| t@)
}

/// The same for a sequence of borrowed tasks.
pub open spec fn ref_views(tasks: Seq<&Task>) -> Seq<TaskView> {
    tasks.map_values(|t: &Task| t@)
}

impl Clone for Task {
    /// A clone is the same task.
    fn clone(&self) -> (copy: Task)
        ensures
            copy == *self,
    {
        Task { id: self.id, content: self.content.clone(), status: self.status }
    }
}

impl Task {
    /// Makes a task with the given id and content. A new task has the
    /// status `New`.
    pub fn create(id: u32, content: String) -> (task: Task)
        ensures
            task.id == id,
            task.content == content,
            task.status == TaskStatus::New,
            task@ == TaskView::created(id as nat, content@),
    {
        Task { id, content, status: TaskStatus::New }
    }

    /// Overwrites the status; id and content stay.
    pub fn change_status(&mut self, status: TaskStatus)
        ensures
            final(self).status == status,
            final(self).id == old(self).id,
            final(self).content == old(self).content,
            final(self)@ == old(self)@.with_status(status),
    {
        self.status = status;
    }

    /// Whether the id of the task is the given one.
    pub fn equals(&self, id: u32) -> (same: bool)
        ensures
            same == (self.id == id),
    {
        self.id == id
    }
}

} // verus!
