//! Counting tasks by status and priority.
use vstd::prelude::*;

use crate::model::{Priority, Status, Task, TaskView};
use crate::query::tasks_view;

verus! {

/// How many tasks of `s` have this status and priority.
pub open spec fn count_of(s: Seq<TaskView>, st: Status, p: Priority) -> nat
    decreases s.len(),
{
    if s.len() == 0 {
        0
    } else {
        count_of(s.drop_last(), st, p) + if s.last().status == st && s.last().priority == p {
            1nat
        } else {
            0nat
        }
    }
}

/// How many tasks of `s` have this status.
pub open spec fn status_count(s: Seq<TaskView>, st: Status) -> nat {
    count_of(s, st, Priority::Low) + count_of(s, st, Priority::Medium) + count_of(
        s,
        st,
        Priority::High,
    )
}

/// The sum of all nine cells.
pub open spec fn all_cells(s: Seq<TaskView>) -> nat {
    status_count(s, Status::ToDo) + status_count(s, Status::InProgress) + status_count(
        s,
        Status::Done,
    )
}

pub open spec fn status_index(st: Status) -> int {
    match st {
        Status::ToDo => 0,
        Status::InProgress => 1,
        Status::Done => 2,
    }
}

pub open spec fn priority_index(p: Priority) -> int {
    match p {
        Priority::Low => 0,
        Priority::Medium => 1,
        Priority::High => 2,
    }
}

pub open spec fn cell_index(st: Status, p: Priority) -> int {
    status_index(st) * 3 + priority_index(p)
}

/// Every task falls in exactly one cell, so the cells add up to the number of
/// tasks.
pub proof fn lemma_cells_total(s: Seq<TaskView>)
    ensures
        all_cells(s) == s.len(),
    decreases s.len(),
{
    if s.len() > 0 {
        lemma_cells_total(s.drop_last());
    }
}

/// The count of tasks in each of the nine (status, priority) cells, zero where
/// none fall.
pub struct Summary {
    /// Nine cells, a row of three per status (`ToDo`, `InProgress`, `Done`),
    /// within a row one per priority (`Low`, `Medium`, `High`).
    pub counts: Vec<usize>,
}

impl Summary {
    pub open spec fn cell(&self, st: Status, p: Priority) -> int {
        self.counts@[cell_index(st, p)] as int
    }

    pub open spec fn row(&self, st: Status) -> int {
        self.cell(st, Priority::Low) + self.cell(st, Priority::Medium) + self.cell(st, Priority::High)
    }

    pub open spec fn total(&self) -> int {
        self.row(Status::ToDo) + self.row(Status::InProgress) + self.row(Status::Done)
    }

    pub open spec fn wf(&self) -> bool {
        &&& self.counts@.len() == 9
        &&& self.total() <= usize::MAX
    }

    /// The aggregate of `tasks`: each cell counts the tasks with that status and
    /// priority.
    pub fn of_tasks(tasks: &Vec<Task>) -> (r: Summary)
        ensures
            r.wf(),
            forall|st: Status, p: Priority|
                #[trigger] r.cell(st, p) == count_of(tasks_view(tasks@), st, p),
            r.total() == tasks@.len(),
    {
        let ghost tv = tasks_view(tasks@);
        let mut counts: Vec<usize> = vec![0, 0, 0, 0, 0, 0, 0, 0, 0];
        let n = tasks.len();
        let mut i: usize = 0;
        while i < n
            invariant
                n == tasks@.len(),
                tv == tasks_view(tasks@),
                0 <= i <= n,
                counts@.len() == 9,
                forall|k: int| 0 <= k < 9 ==> counts@[k] <= i,
                forall|st: Status, p: Priority|
                    #[trigger] counts@[cell_index(st, p)] == count_of(tv.subrange(0, i as int), st, p),
            decreases n - i,
        {
            let t = &tasks[i];
            let s: usize = match t.status {
                Status::ToDo => 0,
                Status::InProgress => 1,
                Status::Done => 2,
            };
            let p: usize = match t.priority {
                Priority::Low => 0,
                Priority::Medium => 1,
                Priority::High => 2,
            };
            let k = s * 3 + p;
            assert(k == cell_index(t.status, t.priority));
            let ghost before = counts@;
            let c = counts[k];
            counts.set(k, c + 1);
            assert(tv.subrange(0, i + 1).drop_last() =~= tv.subrange(0, i as int));
            assert(tv.subrange(0, i + 1).last() == t@);
            assert forall|st: Status, q: Priority|
                #[trigger] counts@[cell_index(st, q)] == count_of(tv.subrange(0, i + 1), st, q) by {
                assert(before[cell_index(st, q)] == count_of(tv.subrange(0, i as int), st, q));
                if st == t.status && q == t.priority {
                } else {
                    assert(cell_index(st, q) != k);
                }
            }
            i = i + 1;
        }
        assert(tv.subrange(0, n as int) =~= tv);
        let r = Summary { counts };
        proof {
            lemma_cells_total(tv);
            assert(tv.len() == tasks@.len());
        }
        r
    }

    /// The count of tasks with this status and priority.
    pub fn count(&self, st: Status, p: Priority) -> (r: usize)
        requires
            self.wf(),
        ensures
            r == self.cell(st, p),
    {
        let s: usize = match st {
            Status::ToDo => 0,
            Status::InProgress => 1,
            Status::Done => 2,
        };
        let q: usize = match p {
            Priority::Low => 0,
            Priority::Medium => 1,
            Priority::High => 2,
        };
        self.counts[s * 3 + q]
    }

    /// The count of tasks with this status, whatever their priority.
    pub fn status_total(&self, st: Status) -> (r: usize)
        requires
            self.wf(),
        ensures
            r == self.row(st),
    {
        self.count(st, Priority::Low) + self.count(st, Priority::Medium) + self.count(
            st,
            Priority::High,
        )
    }

    /// The count of all tasks.
    pub fn grand_total(&self) -> (r: usize)
        requires
            self.wf(),
        ensures
            r == self.total(),
    {
        self.status_total(Status::ToDo) + self.status_total(Status::InProgress)
            + self.status_total(Status::Done)
    }
}

/// The cells of a summary add up to the number of tasks it was made from.
pub proof fn lemma_summary_total(tasks: Seq<TaskView>, r: Summary)
    requires
        forall|st: Status, p: Priority| #[trigger] r.cell(st, p) == count_of(tasks, st, p),
    ensures
        r.total() == tasks.len(),
{
    lemma_cells_total(tasks);
}

} // verus!
