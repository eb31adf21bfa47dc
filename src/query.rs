use vstd::prelude::*;
use crate::task::TaskModel;
use crate::list::ToDoList;
use crate::text::chars_of;

verus! {

/// The positions of the tasks of `ts` that `keep` accepts, in increasing order.
pub open spec fn positions(ts: Seq<TaskModel>, keep: spec_fn(TaskModel) -> bool) -> Seq<int>
    decreases ts.len(),
{
    if ts.len() == 0 {
        Seq::empty()
    } else if keep(ts.last()) {
        positions(ts.drop_last(), keep).push(ts.len() - 1)
    } else {
        positions(ts.drop_last(), keep)
    }
}

/// A task due on exactly `date`.
pub open spec fn due_on(date: Seq<char>) -> spec_fn(TaskModel) -> bool {
    |t: TaskModel| t.due_date == Some(date)
}

/// `k` occurs in `s` as a contiguous run of characters.
pub open spec fn contains_text(s: Seq<char>, k: Seq<char>) -> bool {
    exists|i: int| 0 <= i && i + k.len() <= s.len() && #[trigger] s.subrange(i, i + k.len()) == k
}

/// A task whose description holds `keyword`.
pub open spec fn mentions(keyword: Seq<char>) -> spec_fn(TaskModel) -> bool {
    |t: TaskModel| contains_text(t.description, keyword)
}

/// The positions as mathematical integers.
pub open spec fn as_ints(v: Seq<usize>) -> Seq<int> {
    v.map_values(|i: usize| i as int)
}

/// Whether `k` occurs in `s` (case-sensitive).
pub fn contains_chars(s: &Vec<char>, k: &Vec<char>) -> (r: bool)
    ensures
        r == contains_text(s@, k@),
{
    if k.len() > s.len() {
        return false;
    }
    if k.len() == 0 {
        let ghost z: int = 0;
        assert(s@.subrange(z, z + k@.len()) =~= k@);
        return true;
    }
    let ends = s.len() - k.len() + 1;
    let mut i: usize = 0;
    while i < ends
        invariant
            ends == s.len() - k.len() + 1,
            i <= ends,
            k.len() <= s.len(),
            forall|p: int| 0 <= p < i ==> #[trigger] s@.subrange(p, p + k@.len()) != k@,
        decreases ends - i,
    {
        let mut j: usize = 0;
        while j < k.len() && s[i + j] == k[j]
            invariant
                i < ends,
                ends == s.len() - k.len() + 1,
                j <= k.len(),
                forall|q: int| 0 <= q < j ==> s@[i + q] == k@[q],
            decreases k.len() - j,
        {
            j = j + 1;
        }
        if j == k.len() {
            assert(s@.subrange(i as int, i + k@.len()) =~= k@);
            return true;
        }
        assert(s@.subrange(i as int, i + k@.len())[j as int] != k@[j as int]);
        i = i + 1;
    }
    assert forall|p: int| 0 <= p && p + k@.len() <= s@.len() implies #[trigger] s@.subrange(
        p,
        p + k@.len(),
    ) != k@ by {
        assert(p < ends);
    }
    false
}

impl ToDoList {
    /// The positions of the tasks due on exactly `due_date`.
    pub fn filter_by_due_date(&self, due_date: &str) -> (r: Vec<usize>)
        ensures
            as_ints(r@) == positions(self@, due_on(due_date@)),
    {
        let date = due_date.to_owned();
        let mut r: Vec<usize> = Vec::new();
        let mut i: usize = 0;
        while i < self.tasks.len()
            invariant
                i <= self.tasks.len(),
                date@ == due_date@,
                as_ints(r@) == positions(self@.subrange(0, i as int), due_on(due_date@)),
            decreases self.tasks.len() - i,
        {
            let hit = match &self.tasks[i].due_date {
                Some(d) => *d == date,
                None => false,
            };
            let ghost r0 = r@;
            if hit {
                r.push(i);
                assert(as_ints(r@) =~= as_ints(r0).push(i as int));
            }
            assert(self@.subrange(0, i + 1).drop_last() =~= self@.subrange(0, i as int));
            i = i + 1;
        }
        assert(self@.subrange(0, self@.len() as int) =~= self@);
        r
    }

    /// The positions of the tasks whose description contains `keyword`.
    pub fn search_tasks(&self, keyword: &str) -> (r: Vec<usize>)
        ensures
            as_ints(r@) == positions(self@, mentions(keyword@)),
    {
        let k = chars_of(keyword);
        let mut r: Vec<usize> = Vec::new();
        let mut i: usize = 0;
        while i < self.tasks.len()
            invariant
                i <= self.tasks.len(),
                k@ == keyword@,
                as_ints(r@) == positions(self@.subrange(0, i as int), mentions(keyword@)),
            decreases self.tasks.len() - i,
        {
            let d = chars_of(self.tasks[i].description.as_str());
            let hit = contains_chars(&d, &k);
            let ghost r0 = r@;
            if hit {
                r.push(i);
                assert(as_ints(r@) =~= as_ints(r0).push(i as int));
            }
            assert(self@.subrange(0, i + 1).drop_last() =~= self@.subrange(0, i as int));
            i = i + 1;
        }
        assert(self@.subrange(0, self@.len() as int) =~= self@);
        r
    }
}

} // verus!
