use vstd::prelude::*;
use crate::task::{Task, TaskModel, normalized_due, opt_view};

verus! {

/// Why a positional request was refused.
#[derive(PartialEq, Eq, Structural, Clone, Copy, Debug)]
pub enum TaskError {
    /// The position is not in `[0, len)`.
    InvalidIndex,
}

impl TaskError {
    /// The one-line message shown to the user.
    pub fn message(&self) -> (r: String)
        ensures
            r@ == "Invalid task index!"@,
    {
        "Invalid task index!".to_owned()
    }
}

/// The tasks of a sequence, as models.
pub open spec fn models(ts: Seq<Task>) -> Seq<TaskModel> {
    ts.map_values(|t: Task| t@)
}

/// Every task in `ts` is well formed.
pub open spec fn all_wf(ts: Seq<TaskModel>) -> bool {
    forall|i: int| 0 <= i < ts.len() ==> (#[trigger] ts[i]).wf()
}

/// The task that an add with these inputs appends.
pub open spec fn added(description: Seq<char>, due_date: Option<Seq<char>>) -> TaskModel {
    TaskModel { description, completed: false, due_date: normalized_due(due_date) }
}

/// `t` marked as completed.
pub open spec fn completed(t: TaskModel) -> TaskModel {
    TaskModel { completed: true, ..t }
}

/// The tasks after marking the one at `i` as completed; a position outside
/// `[0, len)` changes nothing.
pub open spec fn marked(ts: Seq<TaskModel>, i: int) -> Seq<TaskModel> {
    if 0 <= i < ts.len() {
        ts.update(i, completed(ts[i]))
    } else {
        ts
    }
}

/// The tasks after adding, in order, one task for each (description, due date).
pub open spec fn after_adds(
    ts: Seq<TaskModel>,
    adds: Seq<(Seq<char>, Option<Seq<char>>)>,
) -> Seq<TaskModel>
    decreases adds.len(),
{
    if adds.len() == 0 {
        ts
    } else {
        after_adds(ts, adds.drop_last()).push(added(adds.last().0, adds.last().1))
    }
}

/// Every task of `ts` marked as completed.
pub open spec fn all_completed(ts: Seq<TaskModel>) -> Seq<TaskModel> {
    ts.map_values(|t: TaskModel| completed(t))
}

pub open spec fn is_open(t: TaskModel) -> bool {
    !t.completed
}

pub open spec fn is_done(t: TaskModel) -> bool {
    t.completed
}

/// The stable reordering that puts incomplete tasks before completed ones.
pub open spec fn by_completion(ts: Seq<TaskModel>) -> Seq<TaskModel> {
    ts.filter(|t: TaskModel| is_open(t)) + ts.filter(|t: TaskModel| is_done(t))
}

/// The ordered task sequence that the command loop owns.
pub struct ToDoList {
    pub tasks: Vec<Task>,
}

impl View for ToDoList {
    type V = Seq<TaskModel>;

    open spec fn view(&self) -> Seq<TaskModel> {
        models(self.tasks@)
    }
}

impl ToDoList {
    pub open spec fn wf(&self) -> bool {
        all_wf(self@)
    }

    pub fn new() -> (r: ToDoList)
        ensures
            r@ == Seq::<TaskModel>::empty(),
            r.wf(),
    {
        ToDoList { tasks: Vec::new() }
    }

    /// Appends a new incomplete task.
    pub fn add_task(&mut self, description: String, due_date: Option<String>)
        requires
            old(self).wf(),
        ensures
            final(self)@ == old(self)@.push(added(description@, opt_view(due_date))),
            final(self).wf(),
    {
        let task = Task::new(description, due_date);
        self.tasks.push(task);
        assert(self@ =~= old(self)@.push(added(description@, opt_view(due_date))));
    }

    /// Removes the task at `index`, or leaves the list as it is.
    pub fn remove_task(&mut self, index: usize) -> (r: Result<(), TaskError>)
        requires
            old(self).wf(),
        ensures
            final(self).wf(),
            index < old(self)@.len() ==> r is Ok && final(self)@ == old(self)@.remove(index as int),
            index >= old(self)@.len() ==> r == Err::<(), TaskError>(TaskError::InvalidIndex)
                && final(self)@ == old(self)@,
    {
        if index < self.tasks.len() {
            self.tasks.remove(index);
            assert(self@ =~= old(self)@.remove(index as int));
            Ok(())
        } else {
            Err(TaskError::InvalidIndex)
        }
    }

    /// Marks the task at `index` as completed, or leaves the list as it is.
    pub fn mark_complete(&mut self, index: usize) -> (r: Result<(), TaskError>)
        requires
            old(self).wf(),
        ensures
            final(self).wf(),
            final(self)@ == marked(old(self)@, index as int),
            index < old(self)@.len() ==> r is Ok,
            index >= old(self)@.len() ==> r == Err::<(), TaskError>(TaskError::InvalidIndex),
    {
        if index < self.tasks.len() {
            self.tasks[index].mark_complete();
            assert(self@ =~= old(self)@.update(index as int, completed(old(self)@[index as int])));
            Ok(())
        } else {
            Err(TaskError::InvalidIndex)
        }
    }

    /// Marks every task as completed.
    pub fn mark_all_complete(&mut self)
        requires
            old(self).wf(),
        ensures
            final(self)@ == all_completed(old(self)@),
            final(self).wf(),
    {
        let n = self.tasks.len();
        let mut i: usize = 0;
        while i < n
            invariant
                n == self.tasks.len(),
                n == old(self)@.len(),
                i <= n,
                forall|j: int| 0 <= j < i ==> self@[j] == completed(old(self)@[j]),
                forall|j: int| i <= j < n ==> self@[j] == old(self)@[j],
            decreases n - i,
        {
            let ghost before = self@;
            self.tasks[i].mark_complete();
            assert(self@ =~= before.update(i as int, completed(before[i as int])));
            i = i + 1;
        }
        assert(self@ =~= all_completed(old(self)@));
    }

    /// Reorders the tasks, incomplete ones first, each group in its former order.
    pub fn sort_by_completion(&mut self)
        requires
            old(self).wf(),
        ensures
            final(self)@ == by_completion(old(self)@),
            final(self).wf(),
    {
        let ghost start = self.tasks@;
        let mut rest: Vec<Task> = Vec::new();
        std::mem::swap(&mut rest, &mut self.tasks);
        let n = rest.len();
        let mut rev: Vec<Task> = Vec::new();
        while rest.len() > 0
            invariant
                n == start.len(),
                rest.len() + rev.len() == n,
                rest@ == start.subrange(0, rest.len() as int),
                forall|j: int| 0 <= j < rev.len() ==> rev@[j] == start[n - 1 - j],
            decreases rest.len(),
        {
            let t = rest.pop().unwrap();
            rev.push(t);
        }
        let mut open: Vec<Task> = Vec::new();
        let mut done: Vec<Task> = Vec::new();
        let ghost ms = models(start);
        while rev.len() > 0
            invariant
                n == start.len(),
                ms == models(start),
                rev.len() <= n,
                forall|j: int| 0 <= j < rev.len() ==> rev@[j] == start[n - 1 - j],
                models(open@) == ms.subrange(0, n - rev.len()).filter(|t: TaskModel| is_open(t)),
                models(done@) == ms.subrange(0, n - rev.len()).filter(|t: TaskModel| is_done(t)),
            decreases rev.len(),
        {
            let ghost k = n - rev.len();
            let t = rev.pop().unwrap();
            assert(t == start[k]);
            proof {
                let pre = ms.subrange(0, k);
                assert(ms.subrange(0, k + 1) =~= pre.push(ms[k]));
                pre.lemma_filter_push(ms[k], |t: TaskModel| is_open(t));
                pre.lemma_filter_push(ms[k], |t: TaskModel| is_done(t));
            }
            let ghost open0 = open@;
            let ghost done0 = done@;
            if t.completed {
                done.push(t);
                assert(models(done@) =~= models(done0).push(start[k]@));
            } else {
                open.push(t);
                assert(models(open@) =~= models(open0).push(start[k]@));
            }
        }
        open.append(&mut done);
        self.tasks = open;
        assert(ms.subrange(0, n as int) =~= ms);
        assert(self@ =~= by_completion(ms));
        proof {
            lemma_by_completion_wf(ms);
        }
    }
}

proof fn lemma_filter_uniform(s: Seq<TaskModel>, p: spec_fn(TaskModel) -> bool)
    ensures
        (forall|i: int| 0 <= i < s.len() ==> #[trigger] p(s[i])) ==> s.filter(p) == s,
        (forall|i: int| 0 <= i < s.len() ==> !#[trigger] p(s[i])) ==> s.filter(p) == Seq::<
            TaskModel,
        >::empty(),
    decreases s.len(),
{
    reveal(Seq::filter);
    if s.len() > 0 {
        let q = s.drop_last();
        lemma_filter_uniform(q, p);
        if forall|i: int| 0 <= i < s.len() ==> #[trigger] p(s[i]) {
            assert forall|i: int| 0 <= i < q.len() implies #[trigger] p(q[i]) by {
                assert(q[i] == s[i]);
            }
            assert(p(s[s.len() - 1]));
            assert(q.push(s.last()) =~= s);
        }
        if forall|i: int| 0 <= i < s.len() ==> !#[trigger] p(s[i]) {
            assert forall|i: int| 0 <= i < q.len() implies !#[trigger] p(q[i]) by {
                assert(q[i] == s[i]);
            }
            assert(!p(s[s.len() - 1]));
        }
    }
}

/// Reordering by completion a second time changes nothing.
pub proof fn lemma_sort_idempotent(ts: Seq<TaskModel>)
    ensures
        by_completion(by_completion(ts)) == by_completion(ts),
{
    let po = |t: TaskModel| is_open(t);
    let pd = |t: TaskModel| is_done(t);
    let a = ts.filter(po);
    let b = ts.filter(pd);
    assert forall|i: int| 0 <= i < a.len() implies #[trigger] po(a[i]) by {
        ts.lemma_filter_pred(po, i);
    }
    assert forall|i: int| 0 <= i < b.len() implies #[trigger] pd(b[i]) by {
        ts.lemma_filter_pred(pd, i);
    }
    assert forall|i: int| 0 <= i < a.len() implies !#[trigger] pd(a[i]) by {
        assert(po(a[i]));
    }
    assert forall|i: int| 0 <= i < b.len() implies !#[trigger] po(b[i]) by {
        assert(pd(b[i]));
    }
    lemma_filter_uniform(a, po);
    lemma_filter_uniform(a, pd);
    lemma_filter_uniform(b, po);
    lemma_filter_uniform(b, pd);
    Seq::filter_distributes_over_add(a, b, po);
    Seq::filter_distributes_over_add(a, b, pd);
    assert(a + Seq::<TaskModel>::empty() =~= a);
    assert(Seq::<TaskModel>::empty() + b =~= b);
}

/// Marking a task as completed sets its flag, and marking it again changes
/// nothing.
pub proof fn lemma_mark_idempotent(ts: Seq<TaskModel>, i: int)
    requires
        0 <= i < ts.len(),
    ensures
        marked(ts, i)[i].completed,
        marked(marked(ts, i), i) == marked(ts, i),
{
    let m = marked(ts, i);
    assert(completed(m[i]) == m[i]);
    assert(m.update(i, m[i]) =~= m);
}

/// Adding tasks one after another to an empty list gives exactly those
/// tasks, in the order they were added, none of them completed, each with
/// the due date it was given (an empty one counting as none).
pub proof fn lemma_adds_in_order(adds: Seq<(Seq<char>, Option<Seq<char>>)>)
    ensures
        after_adds(Seq::empty(), adds).len() == adds.len(),
        forall|i: int|
            0 <= i < adds.len() ==> {
                let t = #[trigger] after_adds(Seq::empty(), adds)[i];
                &&& t.description == adds[i].0
                &&& !t.completed
                &&& t.due_date == normalized_due(adds[i].1)
            },
    decreases adds.len(),
{
    if adds.len() > 0 {
        let p = adds.drop_last();
        lemma_adds_in_order(p);
        assert forall|i: int| 0 <= i < adds.len() implies {
            let t = #[trigger] after_adds(Seq::empty(), adds)[i];
            &&& t.description == adds[i].0
            &&& !t.completed
            &&& t.due_date == normalized_due(adds[i].1)
        } by {
            if i < p.len() {
                assert(after_adds(Seq::empty(), p)[i] == after_adds(Seq::empty(), adds)[i]);
                assert(p[i] == adds[i]);
            }
        }
    }
}

/// Reordering by completion keeps every task well formed.
proof fn lemma_by_completion_wf(ts: Seq<TaskModel>)
    requires
        all_wf(ts),
    ensures
        all_wf(by_completion(ts)),
{
    let a = ts.filter(|t: TaskModel| is_open(t));
    let b = ts.filter(|t: TaskModel| is_done(t));
    assert forall|i: int| 0 <= i < a.len() implies (#[trigger] a[i]).wf() by {
        assert(a.contains(a[i]));
        ts.lemma_filter_contains_rev(|t: TaskModel| is_open(t), a[i]);
    }
    assert forall|i: int| 0 <= i < b.len() implies (#[trigger] b[i]).wf() by {
        assert(b.contains(b[i]));
        ts.lemma_filter_contains_rev(|t: TaskModel| is_done(t), b[i]);
    }
    assert forall|i: int| 0 <= i < (a + b).len() implies (#[trigger] (a + b)[i]).wf() by {
        if i < a.len() {
            assert((a + b)[i] == a[i]);
        } else {
            assert((a + b)[i] == b[i - a.len()]);
        }
    }
}

} // verus!
