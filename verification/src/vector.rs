//! The persistent vector that holds the tasks of a store.
//!
//! The vector comes from the `im` crate and is opaque to the verifier. This
//! module names what it holds and states, for each of its methods that the
//! store calls, what the method does to that content. None of these
//! statements is proved: they are read off the crate's source.

use im::Vector;
use vstd::prelude::*;

use crate::task::Task;

verus! {

/// `im::Vector`, taken as it is: the verifier sees the type and nothing
/// inside it.
#[verifier::external_type_specification]
#[verifier::external_body]
#[verifier::reject_recursive_types(A)]
pub struct ExVector<A>(Vector<A>);

/// The tasks that a vector holds, front to back.
pub uninterp spec fn vector_tasks(v: Vector<Task>) -> Seq<Task>;

/// The tasks that have another id than the given one.
pub open spec fn other_id(id: u32) -> spec_fn(Task) -> bool {
    |t: Task| t.id != id
}

/// Whether a task has another id than the given one.
pub fn has_other_id(task: &Task, id: u32) -> (other: bool)
    ensures
        other == other_id(id)(*task),
{
    !task.equals(id)
}

/// `im::Vector::new`: a vector that holds nothing.
#[verifier::external_body]
pub(crate) fn empty() -> (v: Vector<Task>)
    ensures
        vector_tasks(v) == Seq::<Task>::empty(),
{
    Vector::new()
}

/// `Clone` for `im::Vector`: the copy holds the same tasks in the same
/// order.
#[verifier::external_body]
pub(crate) fn copy(v: &Vector<Task>) -> (twin: Vector<Task>)
    ensures
        vector_tasks(twin) == vector_tasks(*v),
{
    v.clone()
}

/// `im::Vector::is_empty`: whether the vector holds nothing.
#[verifier::external_body]
pub(crate) fn is_empty(v: &Vector<Task>) -> (none: bool)
    ensures
        none == (vector_tasks(*v).len() == 0),
{
    v.is_empty()
}

/// `im::Vector::push_back`: the task is added behind all others, which stay
/// as they are.
#[verifier::external_body]
pub(crate) fn push_back(v: &mut Vector<Task>, task: Task)
    ensures
        vector_tasks(*final(v)) == vector_tasks(*old(v)).push(task),
{
    v.push_back(task)
}

/// `im::Vector::retain`, with a predicate that keeps the tasks of another
/// id: the tasks with the given id leave, the others stay in their order.
#[verifier::external_body]
pub(crate) fn retain_others(v: &mut Vector<Task>, id: u32)
    ensures
        vector_tasks(*final(v)) == vector_tasks(*old(v)).filter(other_id(id)),
{
    v.retain(|task| has_other_id(task, id))
}

/// `im::Vector::clear`: afterwards the vector holds nothing.
#[verifier::external_body]
pub(crate) fn clear(v: &mut Vector<Task>)
    ensures
        vector_tasks(*final(v)) == Seq::<Task>::empty(),
{
    v.clear()
}

/// `im::Vector::iter`: the tasks of the vector, front to back, each by
/// reference.
#[verifier::external_body]
pub(crate) fn items(v: &Vector<Task>) -> (all: Vec<&Task>)
    ensures
        all@.len() == vector_tasks(*v).len(),
        forall|i: int| 0 <= i < all@.len() ==> *#[trigger] all@[i] == vector_tasks(*v)[i],
{
    v.iter().collect()
}

/// `im::Vector::get_mut`: the task at the index, to be changed in place, or
/// `None` where the index is past the end. Whatever the caller then writes
/// stands at that index; the other tasks are untouched.
#[verifier::external_body]
pub(crate) fn get_mut(v: &mut Vector<Task>, index: usize) -> (slot: Option<&mut Task>)
    ensures
        match slot {
            Some(task) => {
                &&& index < vector_tasks(*old(v)).len()
                &&& *task == vector_tasks(*old(v))[index as int]
                &&& vector_tasks(*final(v)) == vector_tasks(*old(v)).update(
                    index as int,
                    *final(task),
                )
            },
            None => {
                &&& index >= vector_tasks(*old(v)).len()
                &&& vector_tasks(*final(v)) == vector_tasks(*old(v))
            },
        },
{
    v.get_mut(index)
}

} // verus!
