//! What holds of a store whatever is done with it.
//!
//! Each statement here is about the store as a mathematical value. The
//! executable store says of each of its operations which function of the
//! model it computes, so the statements hold of it as well.

use vstd::prelude::*;

use crate::model::not_id;
use crate::model::StoreView;
use crate::order::lemma_sorted_wf;
use crate::status::TaskStatus;
use crate::task::TaskView;

verus! {

/// One thing that can be done with a store.
pub enum Step {
    Add { content: Seq<char> },
    ChangeStatus { id: nat, status: TaskStatus },
    Cycle { id: nat },
    Remove { id: nat },
    Clear,
    Sort { order: Seq<TaskStatus> },
}

impl StoreView {
    /// The store after one step.
    pub open spec fn after(self, step: Step) -> StoreView {
        match step {
            Step::Add { content } => self.added(content),
            Step::ChangeStatus { id, status } => self.status_changed(id, status),
            Step::Cycle { id } => self.cycled(id),
            Step::Remove { id } => self.removed(id),
            Step::Clear => self.cleared(),
            Step::Sort { order } => self.sorted(order),
        }
    }

    /// The store after the given steps, taken one after the other.
    pub open spec fn after_all(self, steps: Seq<Step>) -> StoreView
        decreases steps.len(),
    {
        if steps.len() == 0 {
            self
        } else {
            self.after_all(steps.drop_last()).after(steps.last())
        }
    }

    /// The ids that the steps hand out, in the order in which they do: one
    /// for each step that adds a task.
    pub open spec fn issued(self, steps: Seq<Step>) -> Seq<nat>
        decreases steps.len(),
    {
        if steps.len() == 0 {
            Seq::empty()
        } else {
            let before = self.issued(steps.drop_last());
            match steps.last() {
                Step::Add { content } => before.push(self.after_all(steps.drop_last()).next_id()),
                _ => before,
            }
        }
    }
}

/// No step lowers the counter, and only adding a task raises it.
pub proof fn lemma_step_counter(store: StoreView, step: Step)
    ensures
        store.after(step).id_counter == if step is Add {
            store.id_counter + 1
        } else {
            store.id_counter
        },
{
}

/// Every id that is handed out is larger than all that were handed out
/// before it, whatever was done in between: tasks removed, the store
/// cleared or sorted, statuses changed. It is also larger than the counter
/// was at the start, and the counter ends no lower than the last of them.
pub proof fn lemma_ids_increase(store: StoreView, steps: Seq<Step>)
    ensures
        store.id_counter <= store.after_all(steps).id_counter,
        forall|i: int|
            0 <= i < store.issued(steps).len() ==> store.id_counter < #[trigger] store.issued(
                steps,
            )[i] <= store.after_all(steps).id_counter,
        forall|i: int, j: int|
            0 <= i < j < store.issued(steps).len() ==> #[trigger] store.issued(steps)[i]
                < #[trigger] store.issued(steps)[j],
    decreases steps.len(),
{
    if steps.len() > 0 {
        let front = steps.drop_last();
        lemma_ids_increase(store, front);
        lemma_step_counter(store.after_all(front), steps.last());
        let before = store.issued(front);
        let all = store.issued(steps);
        assert forall|i: int| 0 <= i < all.len() implies store.id_counter < #[trigger] all[i]
            <= store.after_all(steps).id_counter by {
            if i < before.len() {
                assert(all[i] == before[i]);
            }
        }
        assert forall|i: int, j: int| 0 <= i < j < all.len() implies #[trigger] all[i]
            < #[trigger] all[j] by {
            assert(all[i] == before[i]);
            if j < before.len() {
                assert(all[j] == before[j]);
            }
        }
    }
}

/// A well-formed store stays well-formed under every step.
pub proof fn lemma_steps_keep_wf(store: StoreView, steps: Seq<Step>)
    requires
        store.wf(),
    ensures
        store.after_all(steps).wf(),
    decreases steps.len(),
{
    if steps.len() > 0 {
        lemma_steps_keep_wf(store, steps.drop_last());
        let before = store.after_all(steps.drop_last());
        match steps.last() {
            Step::Add { content } => before.lemma_added_wf(content),
            Step::ChangeStatus { id, status } => before.lemma_status_changed_wf(id, status),
            Step::Cycle { id } => before.lemma_cycled_wf(id),
            Step::Remove { id } => before.lemma_removed_wf(id),
            Step::Clear => {},
            Step::Sort { order } => lemma_sorted_wf(before, order),
        }
    }
}

/// A task is found by an id exactly where some task has that id; the one
/// found is the first of them.
pub proof fn lemma_found_iff_present(store: StoreView, id: nat)
    ensures
        store.find(id) is Some <==> store.has_id(id),
        store.find(id) matches Some(task) ==> task.id == id,
{
    if store.has_id(id) {
        store.lemma_first_some(id);
    } else {
        store.lemma_first_none(id);
    }
}

/// After a task was removed by its id, no task with that id is found.
pub proof fn lemma_removed_is_gone(store: StoreView, id: nat)
    ensures
        !store.removed(id).has_id(id),
        store.removed(id).find(id) is None,
{
    let keep = not_id(id);
    let left = store.removed(id);
    assert forall|i: int| 0 <= i < left.tasks.len() implies (#[trigger] left.tasks[i]).id != id by {
        store.tasks.lemma_filter_pred(keep, i);
    }
    left.lemma_first_none(id);
}

/// Removing by an id that no task has changes nothing.
pub proof fn lemma_removed_absent(store: StoreView, id: nat)
    requires
        !store.has_id(id),
    ensures
        store.removed(id) == store,
{
    lemma_filter_unless(store.tasks, id);
}

/// Removing by an id that a task of a well-formed store has takes exactly
/// that one task away.
pub proof fn lemma_removed_present(store: StoreView, id: nat)
    requires
        store.wf(),
        store.has_id(id),
    ensures
        store.removed(id).tasks.len() == store.tasks.len() - 1,
{
    lemma_filter_one(store.tasks, id);
}

/// Where no task has the id, leaving out the tasks of that id leaves all.
proof fn lemma_filter_unless(tasks: Seq<TaskView>, id: nat)
    requires
        forall|i: int| 0 <= i < tasks.len() ==> (#[trigger] tasks[i]).id != id,
    ensures
        tasks.filter(not_id(id)) == tasks,
    decreases tasks.len(),
{
    reveal(Seq::filter);
    if tasks.len() > 0 {
        let front = tasks.drop_last();
        assert forall|i: int| 0 <= i < front.len() implies (#[trigger] front[i]).id != id by {
            assert(front[i] == tasks[i]);
        }
        lemma_filter_unless(front, id);
        assert(tasks.last() == tasks[tasks.len() - 1]);
        assert(front.push(tasks.last()) == tasks);
    }
}

/// Where ids are not shared and some task has the id, leaving out the
/// tasks of that id leaves out one task.
proof fn lemma_filter_one(tasks: Seq<TaskView>, id: nat)
    requires
        forall|i: int, j: int|
            0 <= i < j < tasks.len() ==> (#[trigger] tasks[i]).id != (#[trigger] tasks[j]).id,
        exists|i: int| 0 <= i < tasks.len() && (#[trigger] tasks[i]).id == id,
    ensures
        tasks.filter(not_id(id)).len() == tasks.len() - 1,
    decreases tasks.len(),
{
    reveal(Seq::filter);
    let front = tasks.drop_last();
    let last = tasks.len() - 1;
    assert forall|i: int| 0 <= i < front.len() implies #[trigger] front[i] == tasks[i] by {}
    if tasks[last].id == id {
        assert forall|i: int| 0 <= i < front.len() implies (#[trigger] front[i]).id != id by {
            assert(front[i] == tasks[i]);
            assert(tasks[i].id != tasks[last].id);
        }
        lemma_filter_unless(front, id);
    } else {
        let k = choose|k: int| 0 <= k < tasks.len() && (#[trigger] tasks[k]).id == id;
        assert(front[k].id == id);
        assert forall|i: int, j: int| 0 <= i < j < front.len() implies (#[trigger] front[i]).id != (
        #[trigger] front[j]).id by {
            assert(front[i] == tasks[i]);
            assert(front[j] == tasks[j]);
        }
        lemma_filter_one(front, id);
    }
}

/// Clearing leaves an empty store and keeps the counter: the next id is
/// larger than every id that was handed out before, whatever the steps
/// that led to the store.
pub proof fn lemma_cleared_then_added(store: StoreView, steps: Seq<Step>, content: Seq<char>)
    ensures
        store.after_all(steps).cleared().tasks.len() == 0,
        store.after_all(steps).cleared().next_id() == store.after_all(steps).next_id(),
        store.after_all(steps).cleared().added(content).tasks == seq![
            TaskView::created(store.after_all(steps).next_id(), content),
        ],
        forall|i: int|
            0 <= i < store.issued(steps).len() ==> #[trigger] store.issued(steps)[i]
                < store.after_all(steps).cleared().next_id(),
{
    lemma_ids_increase(store, steps);
}

/// Four steps in the status cycle lead back to where they began.
pub proof fn lemma_status_cycle(status: TaskStatus)
    ensures
        status.next_spec().next_spec().next_spec().next_spec() == status,
        status.next_spec() != status,
{
}

/// Cycling the status of a task four times leaves the store as it was.
pub proof fn lemma_cycled_four_times(store: StoreView, id: nat)
    ensures
        store.cycled(id).cycled(id).cycled(id).cycled(id) == store,
{
    match store.first(id) {
        Some(i) => {
            assert(store.is_first(i, id));
            let one = store.cycled(id);
            lemma_cycled_at(store, i, id);
            let two = one.cycled(id);
            lemma_cycled_at(one, i, id);
            let three = two.cycled(id);
            lemma_cycled_at(two, i, id);
            let four = three.cycled(id);
            lemma_cycled_at(three, i, id);
            lemma_status_cycle(store.tasks[i].status);
            assert(four.tasks =~= store.tasks);
        },
        None => {},
    }
}

/// Cycling changes the status of the first task with the id and nothing
/// else; that task is then still the first with the id.
proof fn lemma_cycled_at(store: StoreView, i: int, id: nat)
    requires
        store.is_first(i, id),
    ensures
        store.cycled(id).id_counter == store.id_counter,
        store.cycled(id).tasks == store.tasks.update(
            i,
            store.tasks[i].with_status(store.tasks[i].status.next_spec()),
        ),
        store.cycled(id).is_first(i, id),
{
    store.lemma_first_is(i, id);
    let after = store.cycled(id);
    assert forall|j: int| 0 <= j < i implies (#[trigger] after.tasks[j]).id != id by {
        assert(after.tasks[j] == store.tasks[j]);
    }
}

} // verus!
