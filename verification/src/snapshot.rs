//! The snapshot of a store: what is written to disk and read back.

use im::Vector;
use vstd::prelude::*;

use crate::model::StoreView;
use crate::task::views;
use crate::task::Task;
use crate::vector;
use crate::vector::vector_tasks;

verus! {

/// A store laid out for saving: the counter and the tasks in their order.
#[derive(Debug)]
pub struct SaveTasks {
    pub id_counter: u32,
    pub tasks: Vec<Task>,
}

impl View for SaveTasks {
    type V = StoreView;

    open spec fn view(&self) -> StoreView {
        StoreView { id_counter: self.id_counter as nat, tasks: views(self.tasks@) }
    }
}

impl Default for SaveTasks {
    /// The empty snapshot.
    fn default() -> (snapshot: SaveTasks)
        ensures
            snapshot@ == StoreView::empty(),
    {
        SaveTasks::new()
    }
}

impl Clone for SaveTasks {
    /// A clone holds the same counter and the same tasks.
    fn clone(&self) -> (copy: SaveTasks)
        ensures
            copy.id_counter == self.id_counter,
            copy.tasks@ == self.tasks@,
            copy@ == self@,
    {
        let mut tasks: Vec<Task> = Vec::new();
        let mut i: usize = 0;
        while i < self.tasks.len()
            invariant
                i <= self.tasks@.len(),
                tasks@ == self.tasks@.take(i as int),
            decreases self.tasks@.len() - i,
        {
            tasks.push(self.tasks[i].clone());
            assert(self.tasks@.take(i + 1) == self.tasks@.take(i as int).push(self.tasks@[i as int]));
            i += 1;
        }
        assert(self.tasks@.take(i as int) == self.tasks@);
        SaveTasks { id_counter: self.id_counter, tasks }
    }
}

impl SaveTasks {
    /// The empty snapshot: no task, and a counter that has issued no id.
    pub fn new() -> (snapshot: SaveTasks)
        ensures
            snapshot.id_counter == 0,
            snapshot.tasks@.len() == 0,
            snapshot@ == StoreView::empty(),
    {
        let snapshot = SaveTasks { id_counter: 0, tasks: Vec::new() };
        assert(snapshot@.tasks == Seq::<crate::task::TaskView>::empty());
        snapshot
    }

    /// The tasks of the snapshot as a persistent vector, in the same order.
    pub fn to_vector(&self) -> (v: Vector<Task>)
        ensures
            vector_tasks(v) == self.tasks@,
    {
        let mut v = vector::empty();
        let mut i: usize = 0;
        while i < self.tasks.len()
            invariant
                i <= self.tasks@.len(),
                vector_tasks(v) == self.tasks@.take(i as int),
            decreases self.tasks@.len() - i,
        {
            vector::push_back(&mut v, self.tasks[i].clone());
            assert(self.tasks@.take(i + 1) == self.tasks@.take(i as int).push(self.tasks@[i as int]));
            i += 1;
        }
        assert(self.tasks@.take(i as int) == self.tasks@);
        v
    }
}

} // verus!
