use vstd::prelude::*;

verus! {

/// What a task is, as plain mathematical values.
pub ghost struct TaskModel {
    pub description: Seq<char>,
    pub completed: bool,
    pub due_date: Option<Seq<char>>,
}

/// One to-do record.
pub struct Task {
    pub description: String,
    pub completed: bool,
    pub due_date: Option<String>,
}

/// The view of an optional text.
pub open spec fn opt_view(o: Option<String>) -> Option<Seq<char>> {
    match o {
        Some(s) => Some(s@),
        None => None,
    }
}

impl View for Task {
    type V = TaskModel;

    open spec fn view(&self) -> TaskModel {
        TaskModel {
            description: self.description@,
            completed: self.completed,
            due_date: opt_view(self.due_date),
        }
    }
}

/// A due date is either absent or non-empty text.
pub open spec fn due_date_ok(d: Option<Seq<char>>) -> bool {
    match d {
        Some(s) => s.len() > 0,
        None => true,
    }
}

impl TaskModel {
    pub open spec fn wf(self) -> bool {
        due_date_ok(self.due_date)
    }
}

/// An empty due date text stands for no due date.
pub open spec fn normalized_due(d: Option<Seq<char>>) -> Option<Seq<char>> {
    match d {
        Some(s) => if s.len() == 0 { None } else { Some(s) },
        None => None,
    }
}

impl Task {
    /// A new, incomplete task; an empty due date is taken as no due date.
    pub fn new(description: String, due_date: Option<String>) -> (r: Task)
        ensures
            r@.description == description@,
            !r@.completed,
            r@.due_date == normalized_due(opt_view(due_date)),
            r@.wf(),
    {
        let due_date = match due_date {
            Some(d) => if d.as_str().is_empty() { None } else { Some(d) },
            None => None,
        };
        Task { description, completed: false, due_date }
    }

    pub fn mark_complete(&mut self)
        ensures
            final(self)@ == (TaskModel { completed: true, ..old(self)@ }),
    {
        self.completed = true;
    }
}

} // verus!
