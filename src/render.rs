use vstd::prelude::*;
use crate::task::{Task, TaskModel};
use crate::list::{ToDoList, after_adds, lemma_adds_in_order};
use crate::task::normalized_due;
use crate::text::{chars_of, string_of};

verus! {

/// The decimal digit for `d < 10`.
pub open spec fn digit(d: nat) -> char {
    ((d + 48) as u8) as char
}

/// The decimal writing of `n`, without leading zeros.
pub open spec fn decimal(n: nat) -> Seq<char>
    decreases n,
{
    if n < 10 {
        seq![digit(n)]
    } else {
        decimal(n / 10).push(digit(n % 10))
    }
}

/// What a task's due date shows.
pub open spec fn due_label(d: Option<Seq<char>>) -> Seq<char> {
    match d {
        Some(s) => s,
        None => "No Due Date"@,
    }
}

/// The line that shows one task: its completion marker, its description
/// and its due date.
pub open spec fn task_line(t: TaskModel) -> Seq<char> {
    (if t.completed {
        "[x] "@
    } else {
        "[ ] "@
    }) + t.description + " - "@ + due_label(t.due_date)
}

/// The numbered line for the task at position `pos` (counted from one when shown).
pub open spec fn entry(pos: int, t: TaskModel) -> Seq<char> {
    decimal((pos + 1) as nat) + ". "@ + task_line(t) + seq!['\n']
}

/// The lines for the tasks of `ts` at the positions `idx`, in that order.
pub open spec fn listing(ts: Seq<TaskModel>, idx: Seq<int>) -> Seq<char>
    decreases idx.len(),
{
    if idx.len() == 0 {
        Seq::empty()
    } else {
        listing(ts, idx.drop_last()) + entry(idx.last(), ts[idx.last()])
    }
}

/// Every position `0 .. n`.
pub open spec fn all_positions(n: nat) -> Seq<int> {
    Seq::new(n, |i: int| i)
}

/// What the list command shows.
pub open spec fn list_text(ts: Seq<TaskModel>) -> Seq<char> {
    if ts.len() == 0 {
        "No tasks found!\n"@
    } else {
        listing(ts, all_positions(ts.len()))
    }
}

/// The lines that list the tasks added, in order, to an empty list: each
/// numbered from one, shown as incomplete, with its description and its due
/// date (an empty or absent one shown as "No Due Date").
pub open spec fn added_lines(adds: Seq<(Seq<char>, Option<Seq<char>>)>) -> Seq<char>
    decreases adds.len(),
{
    if adds.len() == 0 {
        Seq::empty()
    } else {
        added_lines(adds.drop_last()) + decimal(adds.len()) + ". "@ + "[ ] "@ + adds.last().0
            + " - "@ + due_label(normalized_due(adds.last().1)) + seq!['\n']
    }
}

proof fn lemma_listing_prefix(ts: Seq<TaskModel>, ext: Seq<TaskModel>, idx: Seq<int>)
    requires
        ts.len() <= ext.len(),
        ext.subrange(0, ts.len() as int) == ts,
        forall|j: int| 0 <= j < idx.len() ==> 0 <= #[trigger] idx[j] < ts.len(),
    ensures
        listing(ext, idx) == listing(ts, idx),
    decreases idx.len(),
{
    if idx.len() > 0 {
        let p = idx.drop_last();
        assert forall|j: int| 0 <= j < p.len() implies 0 <= #[trigger] p[j] < ts.len() by {
            assert(p[j] == idx[j]);
        }
        lemma_listing_prefix(ts, ext, p);
        let k = idx.last();
        assert(idx[idx.len() - 1] == k);
        assert(ext.subrange(0, ts.len() as int)[k] == ext[k]);
    }
}

/// After adding tasks one after another to an empty list, the list command
/// shows exactly one line per added task, in the order they were added,
/// each incomplete and with the due date it was given.
pub proof fn lemma_list_after_adds(adds: Seq<(Seq<char>, Option<Seq<char>>)>)
    requires
        adds.len() > 0,
    ensures
        list_text(after_adds(Seq::empty(), adds)) == added_lines(adds),
    decreases adds.len(),
{
    let n = adds.len();
    let ts = after_adds(Seq::empty(), adds);
    let p = adds.drop_last();
    let tp = after_adds(Seq::empty(), p);
    lemma_adds_in_order(adds);
    lemma_adds_in_order(p);
    let idx = all_positions(n);
    assert(idx.drop_last() =~= all_positions((n - 1) as nat));
    assert(idx.last() == n - 1);
    assert(ts =~= tp.push(ts[n - 1]));
    assert(ts.subrange(0, tp.len() as int) =~= tp);
    lemma_listing_prefix(tp, ts, all_positions((n - 1) as nat));
    if n > 1 {
        lemma_list_after_adds(p);
    } else {
        assert(added_lines(p) == Seq::<char>::empty());
    }
    let t = ts[n - 1];
    assert(t.description == adds[n - 1].0);
    assert(!t.completed);
    assert(t.due_date == normalized_due(adds[n - 1].1));
    assert(adds.last() == adds[n - 1]);
    assert(listing(ts, idx) == listing(ts, idx.drop_last()) + entry(n - 1, t));
    assert(entry(n - 1, t) =~= decimal(n) + ". "@ + "[ ] "@ + t.description + " - "@
        + due_label(t.due_date) + seq!['\n']);
    assert(added_lines(adds) =~= added_lines(p) + entry(n - 1, t));
}

fn push_str(out: &mut Vec<char>, s: &str)
    ensures
        final(out)@ == old(out)@ + s@,
{
    let mut v = chars_of(s);
    out.append(&mut v);
}

fn push_decimal(out: &mut Vec<char>, n: usize)
    ensures
        final(out)@ == old(out)@ + decimal(n as nat),
    decreases n,
{
    if n >= 10 {
        push_decimal(out, n / 10);
    }
    let d = (n % 10) as u8;
    out.push((d + 48) as char);
    assert(out@ =~= old(out)@ + decimal(n as nat));
}

fn push_task_line(out: &mut Vec<char>, t: &Task)
    ensures
        final(out)@ == old(out)@ + task_line(t@),
{
    if t.completed {
        push_str(out, "[x] ");
    } else {
        push_str(out, "[ ] ");
    }
    push_str(out, t.description.as_str());
    push_str(out, " - ");
    match &t.due_date {
        Some(d) => push_str(out, d.as_str()),
        None => push_str(out, "No Due Date"),
    }
    assert(out@ =~= old(out)@ + task_line(t@));
}

impl Task {
    /// The line that shows the task: marker, description, then due date.
    pub fn display(&self) -> (r: String)
        ensures
            r@ == task_line(self@),
    {
        let mut out: Vec<char> = Vec::new();
        push_task_line(&mut out, self);
        assert(out@ =~= task_line(self@));
        string_of(&out)
    }
}

impl ToDoList {
    /// The numbered lines for the tasks at the positions `idx`.
    pub fn listing(&self, idx: &Vec<usize>) -> (r: String)
        requires
            forall|j: int| 0 <= j < idx.len() ==> idx@[j] < self@.len(),
        ensures
            r@ == listing(self@, idx@.map_values(|i: usize| i as int)),
    {
        let ghost ix = idx@.map_values(|i: usize| i as int);
        let mut out: Vec<char> = Vec::new();
        let mut j: usize = 0;
        while j < idx.len()
            invariant
                j <= idx.len(),
                ix == idx@.map_values(|i: usize| i as int),
                forall|q: int| 0 <= q < idx.len() ==> idx@[q] < self@.len(),
                out@ == listing(self@, ix.subrange(0, j as int)),
            decreases idx.len() - j,
        {
            let p = idx[j];
            let n = self.tasks.len();
            assert(p < n);
            push_decimal(&mut out, p + 1);
            push_str(&mut out, ". ");
            push_task_line(&mut out, &self.tasks[p]);
            out.push('\n');
            assert(ix.subrange(0, j + 1).drop_last() =~= ix.subrange(0, j as int));
            assert(out@ =~= listing(self@, ix.subrange(0, j + 1)));
            j = j + 1;
        }
        assert(ix.subrange(0, ix.len() as int) =~= ix);
        string_of(&out)
    }

    /// What the list command shows: every task, numbered from one, or a
    /// message when there is none.
    pub fn list_tasks(&self) -> (r: String)
        ensures
            r@ == list_text(self@),
    {
        if self.tasks.len() == 0 {
            return "No tasks found!\n".to_owned();
        }
        let mut idx: Vec<usize> = Vec::new();
        let mut i: usize = 0;
        while i < self.tasks.len()
            invariant
                i <= self.tasks.len(),
                idx@.len() == i,
                forall|q: int| 0 <= q < i ==> idx@[q] == q,
            decreases self.tasks.len() - i,
        {
            idx.push(i);
            i = i + 1;
        }
        assert(idx@.map_values(|i: usize| i as int) =~= all_positions(self@.len()));
        self.listing(&idx)
    }
}

} // verus!
