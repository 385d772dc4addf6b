//! The text that sums up a store, status by status.
//!
//! For each status of an order the summary has a section: a header line
//! with the status's label and a numbered line for each task of that
//! status. A status without a task has no section.

use vstd::prelude::*;

use crate::order::has_status;
use crate::status::TaskStatus;
use crate::store::Tasks;
use crate::task::ref_views;
use crate::task::Task;
use crate::task::TaskView;
use crate::text::decimal;
use crate::text::decimal_string;
use crate::text::trim;
use crate::text::trimmed;
use crate::vector;

verus! {

/// The header line of a status's section.
pub open spec fn header(status: TaskStatus) -> Seq<char> {
    "# "@ + status.label() + "タスク\n"@
}

/// The line of a task: its number within its section, then its content.
pub open spec fn line(number: nat, content: Seq<char>) -> Seq<char> {
    decimal(number) + ". "@ + content + "\n"@
}

/// The lines of the given tasks, numbered from one.
pub open spec fn lines(tasks: Seq<TaskView>) -> Seq<char>
    decreases tasks.len(),
{
    if tasks.len() == 0 {
        Seq::empty()
    } else {
        lines(tasks.drop_last()) + line(tasks.len(), tasks.last().content)
    }
}

/// The section of a status: its header, a line for each task of that
/// status, and a blank line. Nothing at all where no task has the status.
pub open spec fn section(tasks: Seq<TaskView>, status: TaskStatus) -> Seq<char> {
    let own = tasks.filter(has_status(status));
    if own.len() == 0 {
        Seq::empty()
    } else {
        header(status) + lines(own) + "\n"@
    }
}

/// The sections of the statuses of an order, one after the other.
pub open spec fn sections(tasks: Seq<TaskView>, order: Seq<TaskStatus>) -> Seq<char>
    decreases order.len(),
{
    if order.len() == 0 {
        Seq::empty()
    } else {
        sections(tasks, order.drop_last()) + section(tasks, order.last())
    }
}

/// The summary: the sections, without the white space at either end.
pub open spec fn summary(tasks: Seq<TaskView>, order: Seq<TaskStatus>) -> Seq<char> {
    trimmed(sections(tasks, order))
}

/// The memo that is shown for a summary: the summary between a first and
/// a last line.
pub open spec fn framed(summary: Seq<char>) -> Seq<char> {
    "--- task ---\n"@ + summary + "\n------------"@
}

/// A status that no task has gets no section.
pub proof fn lemma_section_absent(tasks: Seq<TaskView>, status: TaskStatus)
    requires
        forall|i: int| 0 <= i < tasks.len() ==> (#[trigger] tasks[i]).status != status,
    ensures
        section(tasks, status) == Seq::<char>::empty(),
{
    let own = tasks.filter(has_status(status));
    if own.len() > 0 {
        tasks.lemma_filter_pred(has_status(status), 0);
        assert(tasks.contains(own[0])) by {
            broadcast use Seq::lemma_filter_contains_rev;

            assert(own.contains(own[0]));
        }
    }
}

/// A store without tasks has the empty summary, whatever the order.
pub proof fn lemma_summary_of_nothing(order: Seq<TaskStatus>)
    ensures
        sections(Seq::<TaskView>::empty(), order) == Seq::<char>::empty(),
        summary(Seq::<TaskView>::empty(), order) == Seq::<char>::empty(),
    decreases order.len(),
{
    if order.len() > 0 {
        lemma_summary_of_nothing(order.drop_last());
        lemma_section_absent(Seq::<TaskView>::empty(), order.last());
    }
}

/// A section numbers its tasks by their place among the tasks of its
/// status: the line of the first is numbered one, and each next line one
/// more, wherever the tasks stand among the others.
pub proof fn lemma_section_numbering(tasks: Seq<TaskView>, status: TaskStatus, k: int)
    requires
        0 <= k < tasks.filter(has_status(status)).len(),
    ensures
        lines(tasks.filter(has_status(status)).take(k + 1)) == lines(
            tasks.filter(has_status(status)).take(k),
        ) + line((k + 1) as nat, tasks.filter(has_status(status))[k].content),
{
    let own = tasks.filter(has_status(status));
    assert(own.take(k + 1).drop_last() == own.take(k));
}

/// The section of a status is made of the tasks of that status alone: two
/// stores whose tasks of the status agree have the same section for it.
pub proof fn lemma_section_of_own(a: Seq<TaskView>, b: Seq<TaskView>, status: TaskStatus)
    requires
        a.filter(has_status(status)) == b.filter(has_status(status)),
    ensures
        section(a, status) == section(b, status),
{
}

/// The section of a status for the given tasks.
fn section_text(all: &Vec<&Task>, status: TaskStatus) -> (text: String)
    ensures
        text@ == section(ref_views(all@), status),
{
    let ghost given = ref_views(all@);
    let mut text = String::from_str("# ");
    text.append(status.to_string());
    text.append("タスク\n");
    let mut counter: usize = 0;
    let mut i: usize = 0;
    assert(given.take(0).filter(has_status(status)) == Seq::<TaskView>::empty()) by {
        reveal(Seq::filter);
    }
    assert(text@ == header(status) + lines(Seq::<TaskView>::empty()));
    while i < all.len()
        invariant
            i <= all@.len(),
            given == ref_views(all@),
            counter == given.take(i as int).filter(has_status(status)).len(),
            counter <= i,
            text@ == header(status) + lines(given.take(i as int).filter(has_status(status))),
        decreases all@.len() - i,
    {
        let task = all[i];
        proof {
            assert(given.take(i + 1) == given.take(i as int).push(given[i as int]));
            given.take(i as int).lemma_filter_push(given[i as int], has_status(status));
            assert(given[i as int] == task@);
        }
        if task.status == status {
            let ghost own = given.take(i as int).filter(has_status(status));
            let ghost head = text@;
            counter += 1;
            let number = decimal_string(counter);
            text.append(number.as_str());
            text.append(". ");
            text.append(task.content.as_str());
            text.append("\n");
            proof {
                let more = own.push(task@);
                assert(more.drop_last() == own);
                assert(text@ == head + line(counter as nat, task@.content));
                assert(header(status) + lines(own) + line(counter as nat, task@.content)
                    == header(status) + lines(more));
            }
        }
        i += 1;
    }
    assert(given.take(i as int) == given);
    if counter != 0 {
        text.append("\n");
        text
    } else {
        String::new()
    }
}

/// The memo for a summary: the summary between its two framing lines, or
/// `None` for an empty summary, which changes nothing of what is shown.
pub fn memo_text(summary: &str) -> (memo: Option<String>)
    ensures
        match memo {
            Some(text) => summary@.len() > 0 && text@ == framed(summary@),
            None => summary@.len() == 0,
        },
{
    if summary.is_empty() {
        None
    } else {
        let mut text = String::from_str("--- task ---\n");
        text.append(summary);
        text.append("\n------------");
        Some(text)
    }
}

impl Tasks {
    /// The sections of the statuses of the order, one after the other, as
    /// they stand before the summary is trimmed.
    pub fn grouped_sections(&self, order: &Vec<TaskStatus>) -> (text: String)
        ensures
            text@ == sections(self@.tasks, order@),
    {
        let all = vector::items(&self.tasks);
        assert(ref_views(all@) == self@.tasks);
        let mut text = String::new();
        let mut r: usize = 0;
        assert(order@.take(0) == Seq::<TaskStatus>::empty());
        while r < order.len()
            invariant
                r <= order@.len(),
                ref_views(all@) == self@.tasks,
                text@ == sections(self@.tasks, order@.take(r as int)),
            decreases order@.len() - r,
        {
            let part = section_text(&all, order[r]);
            text.append(part.as_str());
            proof {
                assert(order@.take(r + 1).drop_last() == order@.take(r as int));
            }
            r += 1;
        }
        assert(order@.take(r as int) == order@);
        text
    }

    /// The summary of the store by the given order of statuses.
    ///
    /// Each status of the order that some task has gets a section: a header
    /// line with the status's label, then one line for each task of that
    /// status, in the order of the store and numbered from one, then a
    /// blank line. White space at either end of the whole is left out.
    pub fn grouped_summary(&self, order: &Vec<TaskStatus>) -> (text: String)
        ensures
            text@ == summary(self@.tasks, order@),
    {
        let text = self.grouped_sections(order);
        String::from_str(trim(text.as_str()))
    }
}

} // verus!
