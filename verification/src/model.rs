//! The store as a mathematical value, and what each operation makes of it.
//!
//! The executable store states its contracts over the functions of this
//! module, so that what holds of them holds of the running store.

use vstd::prelude::*;

use crate::filters::filter_origin;
use crate::filters::lemma_filter_keeps_order;
use crate::status::TaskStatus;
use crate::task::TaskView;

verus! {

/// A store, mathematically: the counter that ids are taken from and the
/// tasks in the order in which they are shown.
pub struct StoreView {
    pub id_counter: nat,
    pub tasks: Seq<TaskView>,
}

/// The tasks that have another id than the given one.
pub open spec fn not_id(id: nat) -> spec_fn(TaskView) -> bool {
    |t: TaskView| t.id != id
}

impl StoreView {
    /// The store that holds nothing and has issued no id.
    pub open spec fn empty() -> StoreView {
        StoreView { id_counter: 0, tasks: Seq::empty() }
    }

    /// No task has an id above the counter, and no two tasks share an id.
    pub open spec fn wf(self) -> bool {
        &&& forall|i: int| 0 <= i < self.tasks.len() ==> (#[trigger] self.tasks[i]).id <= self.id_counter
        &&& forall|i: int, j: int|
            0 <= i < j < self.tasks.len() ==> (#[trigger] self.tasks[i]).id != (#[trigger] self.tasks[j]).id
    }

    /// Some task has the given id.
    pub open spec fn has_id(self, id: nat) -> bool {
        exists|i: int| 0 <= i < self.tasks.len() && (#[trigger] self.tasks[i]).id == id
    }

    /// The task at `i` has the given id, and no task before it has.
    pub open spec fn is_first(self, i: int, id: nat) -> bool {
        &&& 0 <= i < self.tasks.len()
        &&& self.tasks[i].id == id
        &&& forall|j: int| 0 <= j < i ==> (#[trigger] self.tasks[j]).id != id
    }

    /// The place of the first task with the given id, if there is one.
    pub open spec fn first(self, id: nat) -> Option<int> {
        if exists|i: int| self.is_first(i, id) {
            Some(choose|i: int| self.is_first(i, id))
        } else {
            None
        }
    }

    /// The first task with the given id, if there is one.
    pub open spec fn find(self, id: nat) -> Option<TaskView> {
        match self.first(id) {
            Some(i) => Some(self.tasks[i]),
            None => None,
        }
    }

    /// The id that the next new task gets.
    pub open spec fn next_id(self) -> nat {
        self.id_counter + 1
    }

    /// The store after a task with the given content was added: the counter
    /// has advanced by one, and the new task stands last, with the new
    /// counter as its id and the status `New`.
    pub open spec fn added(self, content: Seq<char>) -> StoreView {
        StoreView {
            id_counter: self.next_id(),
            tasks: self.tasks.push(TaskView::created(self.next_id(), content)),
        }
    }

    /// The store after the first task with the given id got the given
    /// status. A store without such a task stays as it is.
    pub open spec fn status_changed(self, id: nat, status: TaskStatus) -> StoreView {
        match self.first(id) {
            Some(i) => StoreView {
                id_counter: self.id_counter,
                tasks: self.tasks.update(i, self.tasks[i].with_status(status)),
            },
            None => self,
        }
    }

    /// The store after the first task with the given id moved one step on
    /// in the status cycle. A store without such a task stays as it is.
    pub open spec fn cycled(self, id: nat) -> StoreView {
        match self.first(id) {
            Some(i) => self.status_changed(id, self.tasks[i].status.next_spec()),
            None => self,
        }
    }

    /// The store without the tasks of the given id. The counter stays.
    pub open spec fn removed(self, id: nat) -> StoreView {
        StoreView {
            id_counter: self.id_counter,
            tasks: self.tasks.filter(not_id(id)),
        }
    }

    /// The store without any task. The counter stays.
    pub open spec fn cleared(self) -> StoreView {
        StoreView { id_counter: self.id_counter, tasks: Seq::empty() }
    }

    /// A place that is first for an id is the one that `first` gives.
    pub proof fn lemma_first_is(self, i: int, id: nat)
        requires
            self.is_first(i, id),
        ensures
            self.first(id) == Some(i),
    {
        let k = choose|k: int| self.is_first(k, id);
        assert(self.is_first(k, id));
        if k < i {
            assert(self.tasks[k].id != id);
        } else if i < k {
            assert(self.tasks[i].id != id);
        }
    }

    /// Where no task has the id, `first` gives nothing.
    pub proof fn lemma_first_none(self, id: nat)
        requires
            !self.has_id(id),
        ensures
            self.first(id) is None,
    {
        if exists|i: int| self.is_first(i, id) {
            let k = choose|k: int| self.is_first(k, id);
            assert(self.tasks[k].id == id);
        }
    }

    /// Where some task has the id, one of them is the first.
    pub proof fn lemma_first_some(self, id: nat)
        requires
            self.has_id(id),
        ensures
            self.first(id) is Some,
            self.is_first(self.first(id).unwrap(), id),
    {
        let i = choose|i: int| 0 <= i < self.tasks.len() && (#[trigger] self.tasks[i]).id == id;
        let k = Self::least_with_id(self.tasks, id, i);
        self.lemma_first_is(k, id);
    }

    /// The least place at or before `i` whose task has the id.
    proof fn least_with_id(tasks: Seq<TaskView>, id: nat, i: int) -> (k: int)
        requires
            0 <= i < tasks.len(),
            tasks[i].id == id,
        ensures
            0 <= k <= i,
            tasks[k].id == id,
            forall|j: int| 0 <= j < k ==> (#[trigger] tasks[j]).id != id,
        decreases i,
    {
        if exists|j: int| 0 <= j < i && (#[trigger] tasks[j]).id == id {
            let j = choose|j: int| 0 <= j < i && (#[trigger] tasks[j]).id == id;
            Self::least_with_id(tasks, id, j)
        } else {
            i
        }
    }

    /// Adding a task keeps a well-formed store well-formed.
    pub proof fn lemma_added_wf(self, content: Seq<char>)
        requires
            self.wf(),
        ensures
            self.added(content).wf(),
    {
        let after = self.added(content);
        assert forall|i: int| 0 <= i < after.tasks.len() implies (#[trigger] after.tasks[i]).id
            <= after.id_counter by {
            if i < self.tasks.len() {
                assert(after.tasks[i] == self.tasks[i]);
            }
        }
        assert forall|i: int, j: int| 0 <= i < j < after.tasks.len() implies (
        #[trigger] after.tasks[i]).id != (#[trigger] after.tasks[j]).id by {
            assert(after.tasks[i] == self.tasks[i]);
            if j < self.tasks.len() {
                assert(after.tasks[j] == self.tasks[j]);
            }
        }
    }

    /// A change of status keeps a well-formed store well-formed.
    pub proof fn lemma_status_changed_wf(self, id: nat, status: TaskStatus)
        requires
            self.wf(),
        ensures
            self.status_changed(id, status).wf(),
    {
        let after = self.status_changed(id, status);
        if let Some(k) = self.first(id) {
            assert(self.is_first(k, id));
            assert forall|i: int| 0 <= i < after.tasks.len() implies (#[trigger] after.tasks[i]).id
                == self.tasks[i].id by {}
            assert forall|i: int| 0 <= i < after.tasks.len() implies (#[trigger] after.tasks[i]).id
                <= after.id_counter by {
                assert(after.tasks[i].id == self.tasks[i].id);
            }
            assert forall|i: int, j: int| 0 <= i < j < after.tasks.len() implies (
            #[trigger] after.tasks[i]).id != (#[trigger] after.tasks[j]).id by {
                assert(after.tasks[i].id == self.tasks[i].id);
                assert(after.tasks[j].id == self.tasks[j].id);
            }
        }
    }

    /// A step in the status cycle keeps a well-formed store well-formed.
    pub proof fn lemma_cycled_wf(self, id: nat)
        requires
            self.wf(),
        ensures
            self.cycled(id).wf(),
    {
        if let Some(k) = self.first(id) {
            self.lemma_status_changed_wf(id, self.tasks[k].status.next_spec());
        }
    }

    /// Removing by id keeps a well-formed store well-formed.
    pub proof fn lemma_removed_wf(self, id: nat)
        requires
            self.wf(),
        ensures
            self.removed(id).wf(),
    {
        let keep = not_id(id);
        let after = self.removed(id);
        lemma_filter_keeps_order(self.tasks, keep);
        assert forall|i: int| 0 <= i < after.tasks.len() implies (#[trigger] after.tasks[i]).id
            <= after.id_counter by {
            let a = filter_origin(self.tasks, keep, i);
            assert(after.tasks[i] == self.tasks[a]);
        }
        assert forall|i: int, j: int| 0 <= i < j < after.tasks.len() implies (
        #[trigger] after.tasks[i]).id != (#[trigger] after.tasks[j]).id by {
            let a = filter_origin(self.tasks, keep, i);
            let b = filter_origin(self.tasks, keep, j);
            assert(after.tasks[i] == self.tasks[a]);
            assert(after.tasks[j] == self.tasks[b]);
        }
    }
}

} // verus!
