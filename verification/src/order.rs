//! Ordering tasks by status.
//!
//! An order is a sequence of statuses. A task ranks by the place where its
//! status first occurs in the order; a status that the order does not name
//! ranks behind all that it names. Sorting lays the tasks out rank by rank
//! and leaves the tasks of one rank in the order they had.

use vstd::prelude::*;
use vstd::seq_lib::lemma_multiset_commutative;

use crate::filters::filter_origin;
use crate::filters::lemma_filter_all;
use crate::filters::lemma_filter_apart;
use crate::filters::lemma_filter_keeps_order;
use crate::filters::lemma_filter_narrowed;
use crate::filters::lemma_filter_place;
use crate::filters::lemma_filter_split;
use crate::model::StoreView;
use crate::status::TaskStatus;
use crate::task::TaskView;

verus! {

/// The rank of a status: the place of its first occurrence in the order,
/// or the length of the order where it does not occur.
pub open spec fn rank(order: Seq<TaskStatus>, status: TaskStatus) -> int {
    match order.index_of_first(status) {
        Some(i) => i,
        None => order.len() as int,
    }
}

/// The tasks whose status has the rank `r`.
pub open spec fn has_rank(order: Seq<TaskStatus>, r: int) -> spec_fn(TaskView) -> bool {
    |t: TaskView| rank(order, t.status) == r
}

/// The tasks whose status has a rank below `k`.
pub open spec fn ranks_below(order: Seq<TaskStatus>, k: int) -> spec_fn(TaskView) -> bool {
    |t: TaskView| rank(order, t.status) < k
}

/// The tasks of the given status.
pub open spec fn has_status(status: TaskStatus) -> spec_fn(TaskView) -> bool {
    |t: TaskView| t.status == status
}

/// The tasks of rank `r`, in the order they have in `tasks`.
pub open spec fn bucket(tasks: Seq<TaskView>, order: Seq<TaskStatus>, r: int) -> Seq<TaskView> {
    tasks.filter(has_rank(order, r))
}

/// The tasks of the ranks below `k`, rank by rank.
pub open spec fn sorted_upto(tasks: Seq<TaskView>, order: Seq<TaskStatus>, k: nat) -> Seq<TaskView>
    decreases k,
{
    if k == 0 {
        Seq::empty()
    } else {
        sorted_upto(tasks, order, (k - 1) as nat) + bucket(tasks, order, k - 1)
    }
}

/// The tasks sorted by the order: rank by rank, and within one rank as they
/// stood before.
pub open spec fn sorted(tasks: Seq<TaskView>, order: Seq<TaskStatus>) -> Seq<TaskView> {
    sorted_upto(tasks, order, order.len() + 1)
}

impl StoreView {
    /// The store with its tasks sorted by the order. The counter stays.
    pub open spec fn sorted(self, order: Seq<TaskStatus>) -> StoreView {
        StoreView { id_counter: self.id_counter, tasks: sorted(self.tasks, order) }
    }
}

/// A rank lies between zero and the length of the order. Below the length
/// it is a place where the status stands, and the status stands at no
/// earlier place.
pub proof fn lemma_rank(order: Seq<TaskStatus>, status: TaskStatus)
    ensures
        0 <= rank(order, status) <= order.len(),
        rank(order, status) < order.len() ==> order[rank(order, status)] == status,
        forall|j: int| 0 <= j < rank(order, status) ==> order[j] != status,
{
    order.index_of_first_ensures(status);
}

/// The one number that is a status's rank: no earlier place holds the
/// status, and the number is the length of the order or a place that holds
/// it.
pub proof fn lemma_rank_is(order: Seq<TaskStatus>, status: TaskStatus, r: int)
    requires
        0 <= r <= order.len(),
        forall|j: int| 0 <= j < r ==> order[j] != status,
        r < order.len() ==> order[r] == status,
    ensures
        rank(order, status) == r,
{
    lemma_rank(order, status);
}

/// Sorting moves no task of one status past another of the same status:
/// the tasks of each status are, among themselves, in the order they had.
/// None of them is lost and none is doubled.
pub proof fn lemma_sorted_is_stable(
    tasks: Seq<TaskView>,
    order: Seq<TaskStatus>,
    status: TaskStatus,
)
    ensures
        sorted(tasks, order).filter(has_status(status)) == tasks.filter(has_status(status)),
{
    lemma_rank(order, status);
    lemma_sorted_upto_status(tasks, order, order.len() + 1, status);
}

/// The same for the ranks below `k`: the tasks of a status are all there,
/// in their order, once the rank of the status is below `k`, and none of
/// them before.
proof fn lemma_sorted_upto_status(
    tasks: Seq<TaskView>,
    order: Seq<TaskStatus>,
    k: nat,
    status: TaskStatus,
)
    ensures
        sorted_upto(tasks, order, k).filter(has_status(status)) == if rank(order, status) < k {
            tasks.filter(has_status(status))
        } else {
            Seq::empty()
        },
    decreases k,
{
    reveal(Seq::filter);
    lemma_rank(order, status);
    if k > 0 {
        let before = sorted_upto(tasks, order, (k - 1) as nat);
        let last = bucket(tasks, order, k - 1);
        lemma_sorted_upto_status(tasks, order, (k - 1) as nat, status);
        Seq::filter_distributes_over_add(before, last, has_status(status));
        if rank(order, status) == k - 1 {
            lemma_filter_narrowed(tasks, has_rank(order, k - 1), has_status(status));
        } else {
            lemma_filter_apart(tasks, has_rank(order, k - 1), has_status(status));
        }
        assert(sorted_upto(tasks, order, k).filter(has_status(status)) =~= if rank(order, status)
            < k {
            tasks.filter(has_status(status))
        } else {
            Seq::empty()
        });
    }
}

/// Two tasks of one status keep their order under sorting: the one that
/// stood before the other stands before it afterwards.
pub proof fn lemma_sorted_keeps_order_of_equals(
    tasks: Seq<TaskView>,
    order: Seq<TaskStatus>,
    i: int,
    j: int,
)
    requires
        0 <= i < j < tasks.len(),
        tasks[i].status == tasks[j].status,
    ensures
        exists|p: int, q: int|
            0 <= p < q < sorted(tasks, order).len() && #[trigger] sorted(tasks, order)[p]
                == tasks[i] && #[trigger] sorted(tasks, order)[q] == tasks[j],
{
    let same = has_status(tasks[i].status);
    let after = sorted(tasks, order);
    lemma_filter_place(tasks, same, i);
    lemma_filter_place(tasks, same, j);
    lemma_sorted_is_stable(tasks, order, tasks[i].status);
    lemma_filter_keeps_order(after, same);
    let a = tasks.take(i).filter(same).len() as int;
    let b = tasks.take(j).filter(same).len() as int;
    let p = filter_origin(after, same, a);
    let q = filter_origin(after, same, b);
    assert(after[p] == tasks[i]);
    assert(after[q] == tasks[j]);
}

/// In the sorted sequence no task stands before one of a lower rank.
pub proof fn lemma_sorted_in_order(tasks: Seq<TaskView>, order: Seq<TaskStatus>)
    ensures
        forall|i: int, j: int|
            0 <= i < j < sorted(tasks, order).len() ==> rank(
                order,
                (#[trigger] sorted(tasks, order)[i]).status,
            ) <= rank(order, (#[trigger] sorted(tasks, order)[j]).status),
{
    lemma_sorted_upto_in_order(tasks, order, order.len() + 1);
}

/// The same for the ranks below `k`, all of whose tasks rank below `k`.
proof fn lemma_sorted_upto_in_order(tasks: Seq<TaskView>, order: Seq<TaskStatus>, k: nat)
    ensures
        forall|i: int|
            0 <= i < sorted_upto(tasks, order, k).len() ==> rank(
                order,
                (#[trigger] sorted_upto(tasks, order, k)[i]).status,
            ) < k,
        forall|i: int, j: int|
            0 <= i < j < sorted_upto(tasks, order, k).len() ==> rank(
                order,
                (#[trigger] sorted_upto(tasks, order, k)[i]).status,
            ) <= rank(order, (#[trigger] sorted_upto(tasks, order, k)[j]).status),
    decreases k,
{
    if k > 0 {
        let before = sorted_upto(tasks, order, (k - 1) as nat);
        let last = bucket(tasks, order, k - 1);
        let all = sorted_upto(tasks, order, k);
        lemma_sorted_upto_in_order(tasks, order, (k - 1) as nat);
        assert forall|i: int| 0 <= i < all.len() implies rank(order, (#[trigger] all[i]).status) < k
            && (i >= before.len() ==> rank(order, all[i].status) == k - 1) by {
            if i < before.len() {
                assert(all[i] == before[i]);
            } else {
                assert(all[i] == last[i - before.len()]);
                tasks.lemma_filter_pred(has_rank(order, k - 1), i - before.len());
            }
        }
        assert forall|i: int, j: int| 0 <= i < j < all.len() implies rank(
            order,
            (#[trigger] all[i]).status,
        ) <= rank(order, (#[trigger] all[j]).status) by {
            if j < before.len() {
                assert(all[i] == before[i]);
                assert(all[j] == before[j]);
            }
        }
    }
}

/// Sorting rearranges: the sorted sequence holds the same tasks, each as
/// often as before.
pub proof fn lemma_sorted_permutes(tasks: Seq<TaskView>, order: Seq<TaskStatus>)
    ensures
        sorted(tasks, order).to_multiset() == tasks.to_multiset(),
        sorted(tasks, order).len() == tasks.len(),
{
    broadcast use vstd::seq_lib::group_to_multiset_ensures;

    let k = order.len() + 1;
    lemma_sorted_upto_permutes(tasks, order, k);
    assert forall|t: TaskView| #[trigger] ranks_below(order, k as int)(t) by {
        lemma_rank(order, t.status);
    }
    lemma_filter_all(tasks, ranks_below(order, k as int));
    assert(sorted(tasks, order).to_multiset().len() == sorted(tasks, order).len());
    assert(tasks.to_multiset().len() == tasks.len());
}

/// The tasks of the ranks below `k`, laid out rank by rank, are the tasks
/// that rank below `k`, each as often as before.
proof fn lemma_sorted_upto_permutes(tasks: Seq<TaskView>, order: Seq<TaskStatus>, k: nat)
    ensures
        sorted_upto(tasks, order, k).to_multiset() == tasks.filter(
            ranks_below(order, k as int),
        ).to_multiset(),
    decreases k,
{
    broadcast use vstd::seq_lib::group_to_multiset_ensures;
    broadcast use vstd::multiset::group_multiset_axioms;

    if k == 0 {
        assert forall|t: TaskView| !(#[trigger] ranks_below(order, 0)(t)) by {
            lemma_rank(order, t.status);
        }
        lemma_filter_apart(tasks, ranks_below(order, 0), ranks_below(order, 0));
        lemma_filter_narrowed(tasks, ranks_below(order, 0), ranks_below(order, 0));
        assert(sorted_upto(tasks, order, k).to_multiset() =~= tasks.filter(
            ranks_below(order, k as int),
        ).to_multiset());
    } else {
        let before = sorted_upto(tasks, order, (k - 1) as nat);
        let last = bucket(tasks, order, k - 1);
        lemma_sorted_upto_permutes(tasks, order, (k - 1) as nat);
        lemma_multiset_commutative(before, last);
        lemma_filter_split(
            tasks,
            ranks_below(order, k - 1),
            has_rank(order, k - 1),
            ranks_below(order, k as int),
        );
    }
}

/// Sorting keeps a well-formed store well-formed.
pub proof fn lemma_sorted_wf(store: StoreView, order: Seq<TaskStatus>)
    requires
        store.wf(),
    ensures
        store.sorted(order).wf(),
{
    broadcast use vstd::seq_lib::group_to_multiset_ensures;
    broadcast use vstd::multiset::group_multiset_axioms;

    let before = store.tasks;
    let after = sorted(before, order);
    lemma_sorted_permutes(before, order);
    assert(before.no_duplicates());
    before.lemma_multiset_has_no_duplicates();
    after.lemma_multiset_has_no_duplicates_conv();
    assert forall|i: int| 0 <= i < after.len() implies (#[trigger] after[i]).id
        <= store.id_counter by {
        assert(after.to_multiset().contains(after[i]));
        assert(before.contains(after[i]));
    }
    assert forall|i: int, j: int| 0 <= i < j < after.len() implies (#[trigger] after[i]).id != (
    #[trigger] after[j]).id by {
        assert(after.to_multiset().contains(after[i]));
        assert(after.to_multiset().contains(after[j]));
        assert(before.contains(after[i]));
        assert(before.contains(after[j]));
        let a = choose|a: int| 0 <= a < before.len() && before[a] == after[i];
        let b = choose|b: int| 0 <= b < before.len() && before[b] == after[j];
        assert(after[i] != after[j]);
        if a < b {
            assert(before[a].id != before[b].id);
        } else {
            assert(before[b].id != before[a].id);
        }
    }
}

} // verus!
