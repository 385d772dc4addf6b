//! The store: the tasks in their order and the counter that ids come from.

use im::Vector;
use vstd::prelude::*;
use vstd::seq_lib::lemma_filter_view_commute;

use crate::model::not_id;
use crate::model::StoreView;
use crate::order::bucket;
use crate::order::has_rank;
use crate::order::lemma_rank_is;
use crate::order::lemma_sorted_wf;
use crate::order::rank;
use crate::order::sorted_upto;
use crate::snapshot::SaveTasks;
use crate::status::TaskStatus;
use crate::task::ref_views;
use crate::task::views;
use crate::task::Task;
use crate::task::TaskView;
use crate::vector;
use crate::vector::other_id;
use crate::vector::vector_tasks;

verus! {

/// The tasks of a to-do list, in the order in which they are shown, and
/// the counter from which each new task takes its id.
///
/// The counter only ever grows, so that an id is never given twice, not
/// even after its task has left the store.
#[derive(Debug)]
pub struct Tasks {
    pub id_counter: u32,
    pub tasks: Vector<Task>,
}

impl View for Tasks {
    type V = StoreView;

    open spec fn view(&self) -> StoreView {
        StoreView { id_counter: self.id_counter as nat, tasks: views(vector_tasks(self.tasks)) }
    }
}

impl Clone for Tasks {
    /// A clone holds the same counter and the same tasks.
    fn clone(&self) -> (copy: Tasks)
        ensures
            copy.id_counter == self.id_counter,
            vector_tasks(copy.tasks) == vector_tasks(self.tasks),
            copy@ == self@,
    {
        Tasks { id_counter: self.id_counter, tasks: vector::copy(&self.tasks) }
    }
}

impl Default for Tasks {
    /// The empty store.
    fn default() -> (store: Tasks)
        ensures
            store@ == StoreView::empty(),
    {
        Tasks::new()
    }
}

/// The place of a status in an order: where it first occurs, or the length
/// of the order where it does not occur.
pub fn rank_of(order: &Vec<TaskStatus>, status: TaskStatus) -> (r: usize)
    ensures
        r == rank(order@, status),
{
    let mut i: usize = 0;
    while i < order.len()
        invariant
            i <= order@.len(),
            forall|j: int| 0 <= j < i ==> order@[j] != status,
        decreases order@.len() - i,
    {
        if order[i] == status {
            proof {
                lemma_rank_is(order@, status, i as int);
            }
            return i;
        }
        i += 1;
    }
    proof {
        lemma_rank_is(order@, status, i as int);
    }
    i
}

/// Puts a copy of each task of rank `r` behind what `out` holds, in the
/// order in which the tasks are given.
fn append_bucket(out: &mut Vector<Task>, all: &Vec<&Task>, order: &Vec<TaskStatus>, r: usize)
    ensures
        views(vector_tasks(*final(out))) == views(vector_tasks(*old(out))) + bucket(
            ref_views(all@),
            order@,
            r as int,
        ),
{
    let ghost given = ref_views(all@);
    let ghost before = views(vector_tasks(*out));
    let mut i: usize = 0;
    assert(given.take(0).filter(has_rank(order@, r as int)) == Seq::<TaskView>::empty()) by {
        reveal(Seq::filter);
    }
    assert(before + Seq::<TaskView>::empty() == before);
    while i < all.len()
        invariant
            i <= all@.len(),
            given == ref_views(all@),
            views(vector_tasks(*out)) == before + given.take(i as int).filter(
                has_rank(order@, r as int),
            ),
        decreases all@.len() - i,
    {
        let task = all[i];
        proof {
            assert(given.take(i + 1) == given.take(i as int).push(given[i as int]));
            given.take(i as int).lemma_filter_push(given[i as int], has_rank(order@, r as int));
            assert(given[i as int] == task@);
        }
        if rank_of(order, task.status) == r {
            let ghost held = vector_tasks(*out);
            let copy = task.clone();
            vector::push_back(out, copy);
            proof {
                held.lemma_push_map_commute(|t: Task| t@, copy);
                let kept = given.take(i as int).filter(has_rank(order@, r as int));
                assert((before + kept).push(task@) == before + kept.push(task@));
            }
        }
        i += 1;
    }
    assert(given.take(i as int) == given);
}

impl Tasks {
    /// The empty store: no task, and a counter that has issued no id.
    pub fn new() -> (store: Tasks)
        ensures
            store@ == StoreView::empty(),
            store@.wf(),
    {
        let store = Tasks { id_counter: 0, tasks: vector::empty() };
        assert(store@.tasks == Seq::<TaskView>::empty());
        store
    }

    /// The store that a snapshot describes: the same counter and the same
    /// tasks in the same order.
    pub fn from_save_tasks(tasks: SaveTasks) -> (store: Tasks)
        ensures
            store@ == tasks@,
            vector_tasks(store.tasks) == tasks.tasks@,
    {
        Tasks { id_counter: tasks.id_counter, tasks: tasks.to_vector() }
    }

    /// The place of the first task with the given id.
    fn position(&self, id: u32) -> (at: Option<usize>)
        ensures
            match at {
                Some(i) => self@.is_first(i as int, id as nat),
                None => !self@.has_id(id as nat),
            },
            at matches Some(i) ==> self@.first(id as nat) == Some(i as int),
            at is None ==> self@.first(id as nat) is None,
    {
        let all = vector::items(&self.tasks);
        let mut i: usize = 0;
        while i < all.len()
            invariant
                i <= all@.len(),
                all@.len() == self@.tasks.len(),
                forall|k: int| 0 <= k < all@.len() ==> (#[trigger] all@[k])@ == self@.tasks[k],
                forall|j: int| 0 <= j < i ==> (#[trigger] self@.tasks[j]).id != id as nat,
            decreases all@.len() - i,
        {
            if all[i].equals(id) {
                proof {
                    assert(all@[i as int]@ == self@.tasks[i as int]);
                    self@.lemma_first_is(i as int, id as nat);
                }
                return Some(i);
            }
            assert(all@[i as int]@ == self@.tasks[i as int]);
            i += 1;
        }
        proof {
            self@.lemma_first_none(id as nat);
        }
        None
    }

    /// The first task with the given id, to be changed in place, or `None`
    /// where the store has no such task.
    ///
    /// What the caller writes through the reference is what the store then
    /// holds at that task's place. Nothing else in the store changes.
    pub fn find_by_id(&mut self, id: u32) -> (found: Option<&mut Task>)
        ensures
            final(self).id_counter == old(self).id_counter,
            match found {
                Some(task) => {
                    &&& old(self)@.first(id as nat) matches Some(i)
                    &&& task@ == old(self)@.tasks[i]
                    &&& final(self)@.tasks == old(self)@.tasks.update(i, final(task)@)
                },
                None => {
                    &&& old(self)@.first(id as nat) is None
                    &&& final(self)@ == old(self)@
                },
            },
    {
        match self.position(id) {
            Some(i) => {
                let ghost held = vector_tasks(self.tasks);
                assert forall|t: Task| #[trigger]
                    views(held.update(i as int, t)) == views(held).update(i as int, t@) by {
                    assert(views(held.update(i as int, t)) =~= views(held).update(i as int, t@));
                }
                vector::get_mut(&mut self.tasks, i)
            },
            None => None,
        }
    }

    /// Takes the next id from the counter.
    fn generate_task_id(&mut self) -> (id: u32)
        requires
            old(self).id_counter < u32::MAX,
        ensures
            id == old(self).id_counter + 1,
            final(self).id_counter == id,
            final(self).tasks == old(self).tasks,
    {
        self.id_counter += 1;
        self.id_counter
    }

    /// Adds a task with the given content and returns its id.
    ///
    /// The id is one more than the counter was; the counter moves up to it.
    /// The task stands last and has the status `New`. The content is taken
    /// as it is, empty or not. The counter must not have reached the
    /// largest number it can hold.
    pub fn add_message(&mut self, message: String) -> (id: u32)
        requires
            old(self).id_counter < u32::MAX,
        ensures
            id == old(self)@.next_id(),
            final(self)@ == old(self)@.added(message@),
            old(self)@.wf() ==> final(self)@.wf(),
    {
        let ghost held = vector_tasks(self.tasks);
        let id = self.generate_task_id();
        let task = Task::create(id, message);
        vector::push_back(&mut self.tasks, task);
        proof {
            held.lemma_push_map_commute(|t: Task| t@, task);
            if old(self)@.wf() {
                old(self)@.lemma_added_wf(message@);
            }
        }
        id
    }

    /// Gives the first task with the given id the given status, and says
    /// whether there was such a task. Without one the store stays as it is.
    pub fn change_status(&mut self, id: u32, status: TaskStatus) -> (found: bool)
        ensures
            found == old(self)@.first(id as nat) is Some,
            final(self)@ == old(self)@.status_changed(id as nat, status),
            old(self)@.wf() ==> final(self)@.wf(),
    {
        proof {
            if old(self)@.wf() {
                old(self)@.lemma_status_changed_wf(id as nat, status);
            }
        }
        match self.find_by_id(id) {
            Some(task) => {
                task.change_status(status);
                true
            },
            None => false,
        }
    }

    /// Moves the first task with the given id one step on in the status
    /// cycle, and says whether there was such a task. Without one the store
    /// stays as it is.
    pub fn cycle_status(&mut self, id: u32) -> (found: bool)
        ensures
            found == old(self)@.first(id as nat) is Some,
            final(self)@ == old(self)@.cycled(id as nat),
            old(self)@.wf() ==> final(self)@.wf(),
    {
        proof {
            if old(self)@.wf() {
                old(self)@.lemma_cycled_wf(id as nat);
            }
        }
        match self.find_by_id(id) {
            Some(task) => {
                let next = task.status.next_status();
                task.change_status(next);
                true
            },
            None => false,
        }
    }

    /// Removes every task with the given id. In a well-formed store that
    /// is at most one. The others keep their order, and the counter stays.
    pub fn remove_by_id(&mut self, id: u32)
        ensures
            final(self)@ == old(self)@.removed(id as nat),
            old(self)@.wf() ==> final(self)@.wf(),
    {
        let ghost held = vector_tasks(self.tasks);
        vector::retain_others(&mut self.tasks, id);
        proof {
            let keep = not_id(id as nat);
            lemma_filter_view_commute(held, other_id(id), keep);
            assert(held.filter(other_id(id)).map_values(|t: Task| t.view()) == views(
                held.filter(other_id(id)),
            ));
            assert(held.map_values(|t: Task| t.view()) == views(held));
            if old(self)@.wf() {
                old(self)@.lemma_removed_wf(id as nat);
            }
        }
    }

    /// Removes all tasks. The counter stays, so that no id comes again.
    pub fn clear(&mut self)
        ensures
            final(self)@ == old(self)@.cleared(),
            final(self)@.wf(),
    {
        vector::clear(&mut self.tasks);
        assert(self@.tasks == Seq::<TaskView>::empty());
    }

    /// Whether the store holds no task.
    pub fn is_empty(&self) -> (none: bool)
        ensures
            none == (self@.tasks.len() == 0),
    {
        vector::is_empty(&self.tasks)
    }

    /// A copy of the tasks, in their order.
    pub fn to_vec(&self) -> (all: Vec<Task>)
        ensures
            all@ == vector_tasks(self.tasks),
            views(all@) == self@.tasks,
    {
        let held = vector::items(&self.tasks);
        let ghost tasks = vector_tasks(self.tasks);
        let mut all: Vec<Task> = Vec::new();
        let mut i: usize = 0;
        while i < held.len()
            invariant
                i <= held@.len(),
                held@.len() == tasks.len(),
                forall|k: int| 0 <= k < held@.len() ==> *#[trigger] held@[k] == tasks[k],
                all@ == tasks.take(i as int),
            decreases held@.len() - i,
        {
            all.push(held[i].clone());
            assert(tasks.take(i + 1) == tasks.take(i as int).push(tasks[i as int]));
            i += 1;
        }
        assert(tasks.take(i as int) == tasks);
        all
    }

    /// The snapshot of the store: the same counter and the same tasks in
    /// the same order.
    pub fn to_save_tasks(&self) -> (snapshot: SaveTasks)
        ensures
            snapshot@ == self@,
            snapshot.tasks@ == vector_tasks(self.tasks),
    {
        SaveTasks { id_counter: self.id_counter, tasks: self.to_vec() }
    }

    /// Sorts the tasks by the given order of statuses.
    ///
    /// A task whose status comes earlier in the order stands before one
    /// whose status comes later; a status that the order does not name
    /// comes after all that it names. Tasks of one status keep the order
    /// they had. No task is lost, and the counter stays.
    pub fn sort(&mut self, order: &Vec<TaskStatus>)
        ensures
            final(self)@ == old(self)@.sorted(order@),
            old(self)@.wf() ==> final(self)@.wf(),
    {
        let all = vector::items(&self.tasks);
        let ghost before = self@.tasks;
        assert(ref_views(all@) == before);
        let mut out = vector::empty();
        assert(views(vector_tasks(out)) == sorted_upto(before, order@, 0));
        let mut r: usize = 0;
        while r < order.len()
            invariant
                r <= order@.len(),
                ref_views(all@) == before,
                views(vector_tasks(out)) == sorted_upto(before, order@, r as nat),
            decreases order@.len() - r,
        {
            append_bucket(&mut out, &all, order, r);
            r += 1;
        }
        append_bucket(&mut out, &all, order, r);
        self.tasks = out;
        proof {
            if old(self)@.wf() {
                lemma_sorted_wf(old(self)@, order@);
            }
        }
    }
}

} // verus!
