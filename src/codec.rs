use vstd::prelude::*;
use crate::task::TaskModel;
use crate::task::Task;
use crate::list::{all_wf, models, ToDoList};
use crate::text::{chars_of, string_of};

verus! {

// Storage format: one record per line,
// `description|true-or-false|due date (empty when absent)`, where `\`, `|`
// and a line break inside a text are written `\\`, `\|` and `\n`.
// A line always ends at a line break, even one after an unpaired `\`; any
// other character after `\` stands for itself (`\x` reads as `x`).

/// How one character of a text is written.
pub open spec fn escape_char(c: char) -> Seq<char> {
    if c == '\\' {
        seq!['\\', '\\']
    } else if c == '|' {
        seq!['\\', '|']
    } else if c == '\n' {
        seq!['\\', 'n']
    } else {
        seq![c]
    }
}

/// How a text is written: each character in turn.
pub open spec fn escape(s: Seq<char>) -> Seq<char>
    decreases s.len(),
{
    if s.len() == 0 {
        Seq::empty()
    } else {
        escape(s.drop_last()) + escape_char(s.last())
    }
}

pub open spec fn flag_text(b: bool) -> Seq<char> {
    if b {
        seq!['t', 'r', 'u', 'e']
    } else {
        seq!['f', 'a', 'l', 's', 'e']
    }
}

pub open spec fn due_text(d: Option<Seq<char>>) -> Seq<char> {
    match d {
        Some(s) => s,
        None => Seq::empty(),
    }
}

/// The line that stores one task.
pub open spec fn record(t: TaskModel) -> Seq<char> {
    escape(t.description) + seq!['|'] + flag_text(t.completed) + seq!['|'] + escape(
        due_text(t.due_date),
    ) + seq!['\n']
}

/// The stored text of a task sequence: its records in order.
pub open spec fn encode(ts: Seq<TaskModel>) -> Seq<char>
    decreases ts.len(),
{
    if ts.len() == 0 {
        Seq::empty()
    } else {
        encode(ts.drop_last()) + record(ts.last())
    }
}

/// Where a reader of stored text stands: the tasks read so far, the
/// finished fields of the current line, the field being read, and whether
/// the last character was an unpaired `\`.
pub ghost struct Reader {
    pub tasks: Seq<TaskModel>,
    pub fields: Seq<Seq<char>>,
    pub field: Seq<char>,
    pub escaped: bool,
}

pub open spec fn fresh() -> Reader {
    Reader { tasks: Seq::empty(), fields: Seq::empty(), field: Seq::empty(), escaped: false }
}

/// The task that a record of three fields stands for.
pub open spec fn task_of_fields(f: Seq<Seq<char>>) -> TaskModel {
    TaskModel {
        description: f[0],
        completed: f[1] == flag_text(true),
        due_date: if f[2].len() == 0 {
            None
        } else {
            Some(f[2])
        },
    }
}

/// The end of a line: a record of exactly three fields becomes a task,
/// any other is skipped.
pub open spec fn end_line(r: Reader) -> Reader {
    let fs = r.fields.push(r.field);
    Reader {
        tasks: if fs.len() == 3 {
            r.tasks.push(task_of_fields(fs))
        } else {
            r.tasks
        },
        fields: Seq::empty(),
        field: Seq::empty(),
        escaped: false,
    }
}

/// Reading one more character.
pub open spec fn step(r: Reader, c: char) -> Reader {
    if r.escaped && c == '\n' {
        end_line(r)
    } else if r.escaped {
        Reader {
            field: r.field.push(
                if c == 'n' {
                    '\n'
                } else {
                    c
                },
            ),
            escaped: false,
            ..r
        }
    } else if c == '\\' {
        Reader { escaped: true, ..r }
    } else if c == '|' {
        Reader { fields: r.fields.push(r.field), field: Seq::empty(), ..r }
    } else if c == '\n' {
        end_line(r)
    } else {
        Reader { field: r.field.push(c), ..r }
    }
}

/// Reading the characters of `s` in order.
pub open spec fn run(r: Reader, s: Seq<char>) -> Reader
    decreases s.len(),
{
    if s.len() == 0 {
        r
    } else {
        step(run(r, s.drop_last()), s.last())
    }
}

/// The tasks once the text has ended; a last line without a line break counts.
pub open spec fn finish(r: Reader) -> Seq<TaskModel> {
    if r.fields.len() == 0 && r.field.len() == 0 {
        r.tasks
    } else {
        end_line(r).tasks
    }
}

/// The tasks that a stored text holds.
pub open spec fn decode(s: Seq<char>) -> Seq<TaskModel> {
    finish(run(fresh(), s))
}

/// A reader at the start of a line.
pub open spec fn at_line_start(r: Reader) -> bool {
    r.fields.len() == 0 && r.field.len() == 0 && !r.escaped
}

proof fn lemma_run_concat(r: Reader, a: Seq<char>, b: Seq<char>)
    ensures
        run(r, a + b) == run(run(r, a), b),
    decreases b.len(),
{
    if b.len() == 0 {
        assert(a + b =~= a);
    } else {
        assert((a + b).drop_last() =~= a + b.drop_last());
        lemma_run_concat(r, a, b.drop_last());
    }
}

proof fn lemma_run_two(r: Reader, x: char, y: char)
    ensures
        run(r, seq![x, y]) == step(step(r, x), y),
{
    let s = seq![x, y];
    assert(s.drop_last() =~= seq![x]);
    assert(s.last() == y);
    lemma_run_one(r, x);
    assert(run(r, s) == step(run(r, s.drop_last()), s.last()));
}

proof fn lemma_run_one(r: Reader, x: char)
    ensures
        run(r, seq![x]) == step(r, x),
{
    let s = seq![x];
    assert(s.drop_last() =~= Seq::<char>::empty());
    assert(s.last() == x);
    assert(run(r, s.drop_last()) == r);
    assert(run(r, s) == step(run(r, s.drop_last()), s.last()));
}

/// Reading a written text adds exactly that text to the current field.
proof fn lemma_run_escape(r: Reader, x: Seq<char>)
    requires
        !r.escaped,
    ensures
        run(r, escape(x)) == (Reader { field: r.field + x, ..r }),
    decreases x.len(),
{
    if x.len() == 0 {
        assert(r.field + x =~= r.field);
    } else {
        let p = x.drop_last();
        let c = x.last();
        lemma_run_escape(r, p);
        lemma_run_concat(r, escape(p), escape_char(c));
        let r1 = Reader { field: r.field + p, ..r };
        if c == '\\' || c == '|' || c == '\n' {
            lemma_run_two(r1, '\\', escape_char(c)[1]);
        } else {
            lemma_run_one(r1, c);
        }
        assert(r.field + x =~= (r.field + p).push(c));
    }
}

/// Reading text free of special characters adds it to the current field.
proof fn lemma_run_plain(r: Reader, x: Seq<char>)
    requires
        !r.escaped,
        forall|i: int| 0 <= i < x.len() ==> x[i] != '\\' && x[i] != '|' && x[i] != '\n',
    ensures
        run(r, x) == (Reader { field: r.field + x, ..r }),
    decreases x.len(),
{
    if x.len() == 0 {
        assert(r.field + x =~= r.field);
    } else {
        lemma_run_plain(r, x.drop_last());
        assert(r.field + x =~= (r.field + x.drop_last()).push(x.last()));
    }
}

/// Reading the record of a well-formed task at the start of a line yields
/// that task and ends at the start of the next line.
proof fn lemma_run_record(r: Reader, t: TaskModel)
    requires
        at_line_start(r),
        t.wf(),
    ensures
        run(r, record(t)) == (Reader { tasks: r.tasks.push(t), ..r }),
{
    let d = escape(t.description);
    let f = flag_text(t.completed);
    let u = escape(due_text(t.due_date));
    let bar = seq!['|'];
    let nl = seq!['\n'];
    lemma_run_concat(r, d + bar + f + bar + u, nl);
    lemma_run_concat(r, d + bar + f + bar, u);
    lemma_run_concat(r, d + bar + f, bar);
    lemma_run_concat(r, d + bar, f);
    lemma_run_concat(r, d, bar);
    lemma_run_escape(r, t.description);
    let r1 = Reader { field: r.field + t.description, ..r };
    assert(run(r, d) == r1);
    lemma_run_one(r1, '|');
    let r2 = step(r1, '|');
    assert(run(r, d + bar) == r2);
    assert(r.field + t.description =~= t.description);
    assert(r2.field =~= Seq::<char>::empty());
    lemma_run_plain(r2, f);
    let r3 = Reader { field: f, ..r2 };
    assert(r2.field + f =~= f);
    assert(run(r, d + bar + f) == r3);
    lemma_run_one(r3, '|');
    let r4 = step(r3, '|');
    assert(run(r, d + bar + f + bar) == r4);
    lemma_run_escape(r4, due_text(t.due_date));
    let r5 = Reader { field: due_text(t.due_date), ..r4 };
    assert(r4.field + due_text(t.due_date) =~= due_text(t.due_date));
    assert(run(r, d + bar + f + bar + u) == r5);
    lemma_run_one(r5, '\n');
    let fs = r5.fields.push(r5.field);
    assert(fs =~= seq![t.description, f, due_text(t.due_date)]);
    if !t.completed {
        assert(f.len() != flag_text(true).len());
    }
    assert(task_of_fields(fs) == t);
    assert(record(t) == d + bar + f + bar + u + nl);
    assert(r.fields =~= Seq::<Seq<char>>::empty());
    assert(r.field =~= Seq::<char>::empty());
    assert(run(r, record(t)) == end_line(r5));
}

/// Reading the stored text of well-formed tasks from a fresh start yields
/// those tasks and ends at the start of a line.
proof fn lemma_run_encode(ts: Seq<TaskModel>)
    requires
        all_wf(ts),
    ensures
        run(fresh(), encode(ts)) == (Reader { tasks: ts, ..fresh() }),
    decreases ts.len(),
{
    if ts.len() == 0 {
        assert(ts =~= Seq::<TaskModel>::empty());
    } else {
        let p = ts.drop_last();
        assert(all_wf(p)) by {
            assert forall|i: int| 0 <= i < p.len() implies (#[trigger] p[i]).wf() by {
                assert(p[i] == ts[i]);
            }
        }
        lemma_run_encode(p);
        lemma_run_concat(fresh(), encode(p), record(ts.last()));
        lemma_run_record(Reader { tasks: p, ..fresh() }, ts.last());
        assert(p.push(ts.last()) =~= ts);
    }
}

/// Loading what was saved gives back the same tasks, in the same order.
pub proof fn lemma_decode_encode(ts: Seq<TaskModel>)
    requires
        all_wf(ts),
    ensures
        decode(encode(ts)) == ts,
{
    lemma_run_encode(ts);
}

/// Appends the written form of `s`.
fn push_escaped(out: &mut Vec<char>, s: &Vec<char>)
    ensures
        final(out)@ == old(out)@ + escape(s@),
{
    let mut i: usize = 0;
    while i < s.len()
        invariant
            i <= s.len(),
            out@ == old(out)@ + escape(s@.subrange(0, i as int)),
        decreases s.len() - i,
    {
        let c = s[i];
        let ghost before = out@;
        if c == '\\' {
            out.push('\\');
            out.push('\\');
        } else if c == '|' {
            out.push('\\');
            out.push('|');
        } else if c == '\n' {
            out.push('\\');
            out.push('n');
        } else {
            out.push(c);
        }
        assert(out@ =~= before + escape_char(c));
        assert(s@.subrange(0, i + 1).drop_last() =~= s@.subrange(0, i as int));
        assert(out@ =~= old(out)@ + escape(s@.subrange(0, i + 1)));
        i = i + 1;
    }
    assert(s@.subrange(0, s@.len() as int) =~= s@);
}

/// Appends the line that stores `t`.
fn push_record(out: &mut Vec<char>, t: &Task)
    ensures
        final(out)@ == old(out)@ + record(t@),
{
    let d = chars_of(t.description.as_str());
    push_escaped(out, &d);
    out.push('|');
    if t.completed {
        out.push('t');
        out.push('r');
        out.push('u');
        out.push('e');
    } else {
        out.push('f');
        out.push('a');
        out.push('l');
        out.push('s');
        out.push('e');
    }
    out.push('|');
    match &t.due_date {
        Some(s) => {
            let v = chars_of(s.as_str());
            push_escaped(out, &v);
        },
        None => {
            assert(escape(Seq::<char>::empty()) =~= Seq::<char>::empty());
        },
    }
    out.push('\n');
    assert(out@ =~= old(out)@ + record(t@));
}

/// The stored text of `tasks`.
pub fn encode_tasks(tasks: &Vec<Task>) -> (r: String)
    ensures
        r@ == encode(models(tasks@)),
{
    let ghost ms = models(tasks@);
    let mut out: Vec<char> = Vec::new();
    let mut i: usize = 0;
    while i < tasks.len()
        invariant
            i <= tasks.len(),
            ms == models(tasks@),
            out@ == encode(ms.subrange(0, i as int)),
        decreases tasks.len() - i,
    {
        push_record(&mut out, &tasks[i]);
        assert(ms.subrange(0, i + 1).drop_last() =~= ms.subrange(0, i as int));
        i = i + 1;
    }
    assert(ms.subrange(0, ms.len() as int) =~= ms);
    string_of(&out)
}

/// The views of a sequence of character vectors.
pub open spec fn texts(fs: Seq<Vec<char>>) -> Seq<Seq<char>> {
    fs.map_values(|v: Vec<char>| v@)
}

/// Whether `v` reads `true`.
fn is_true_text(v: &Vec<char>) -> (r: bool)
    ensures
        r == (v@ == flag_text(true)),
{
    let r = v.len() == 4 && v[0] == 't' && v[1] == 'r' && v[2] == 'u' && v[3] == 'e';
    if r {
        assert(v@ =~= flag_text(true));
    }
    r
}

/// Ends the current line: the record becomes a task if it has three fields.
fn close_line(
    tasks: &mut Vec<Task>,
    fields: &mut Vec<Vec<char>>,
    field: &mut Vec<char>,
    Ghost(escaped): Ghost<bool>,
)
    requires
        all_wf(models(old(tasks)@)),
    ensures
        ({
            let r = end_line(
                Reader {
                    tasks: models(old(tasks)@),
                    fields: texts(old(fields)@),
                    field: old(field)@,
                    escaped,
                },
            );
            &&& models(final(tasks)@) == r.tasks
            &&& texts(final(fields)@) == r.fields
            &&& final(field)@ == r.field
        }),
        all_wf(models(final(tasks)@)),
{
    let ghost fs = texts(old(fields)@).push(old(field)@);
    let mut f: Vec<char> = Vec::new();
    std::mem::swap(&mut f, field);
    fields.push(f);
    assert(texts(fields@) =~= fs);
    if fields.len() == 3 {
        let due = fields.pop().unwrap();
        let flag = fields.pop().unwrap();
        let desc = fields.pop().unwrap();
        assert(due@ == fs[2]);
        assert(flag@ == fs[1]);
        assert(desc@ == fs[0]);
        let completed = is_true_text(&flag);
        let due_date = if due.len() == 0 {
            None
        } else {
            Some(string_of(&due))
        };
        let t = Task { description: string_of(&desc), completed, due_date };
        assert(t@ == task_of_fields(fs));
        let ghost before = tasks@;
        tasks.push(t);
        assert(models(tasks@) =~= models(before).push(t@));
    } else {
        fields.clear();
    }
    assert(texts(fields@) =~= Seq::<Seq<char>>::empty());
    assert(field@ =~= Seq::<char>::empty());
}

/// Whether the reader `r` is what the exec state holds.
pub open spec fn holds(
    r: Reader,
    tasks: Seq<Task>,
    fields: Seq<Vec<char>>,
    field: Seq<char>,
    escaped: bool,
) -> bool {
    &&& r.tasks == models(tasks)
    &&& r.fields == texts(fields)
    &&& r.field == field
    &&& r.escaped == escaped
}

/// The tasks that a stored text holds; malformed lines are skipped.
pub fn decode_tasks(text: &str) -> (r: Vec<Task>)
    ensures
        models(r@) == decode(text@),
        all_wf(models(r@)),
{
    let cs = chars_of(text);
    let mut tasks: Vec<Task> = Vec::new();
    let mut fields: Vec<Vec<char>> = Vec::new();
    let mut field: Vec<char> = Vec::new();
    let mut escaped = false;
    let mut i: usize = 0;
    assert(models(tasks@) =~= Seq::<TaskModel>::empty());
    assert(texts(fields@) =~= Seq::<Seq<char>>::empty());
    while i < cs.len()
        invariant
            i <= cs.len(),
            cs@ == text@,
            holds(run(fresh(), cs@.subrange(0, i as int)), tasks@, fields@, field@, escaped),
            all_wf(models(tasks@)),
        decreases cs.len() - i,
    {
        let c = cs[i];
        let ghost r0 = run(fresh(), cs@.subrange(0, i as int));
        assert(cs@.subrange(0, i + 1).drop_last() =~= cs@.subrange(0, i as int));
        if escaped && c == '\n' {
            close_line(&mut tasks, &mut fields, &mut field, Ghost(escaped));
            escaped = false;
        } else if escaped {
            field.push(
                if c == 'n' {
                    '\n'
                } else {
                    c
                },
            );
            escaped = false;
        } else if c == '\\' {
            escaped = true;
        } else if c == '|' {
            let ghost fs0 = fields@;
            let mut f: Vec<char> = Vec::new();
            std::mem::swap(&mut f, &mut field);
            fields.push(f);
            assert(texts(fields@) =~= texts(fs0).push(r0.field));
            assert(field@ =~= Seq::<char>::empty());
        } else if c == '\n' {
            close_line(&mut tasks, &mut fields, &mut field, Ghost(escaped));
        } else {
            field.push(c);
        }
        assert(holds(step(r0, c), tasks@, fields@, field@, escaped));
        i = i + 1;
    }
    assert(cs@.subrange(0, cs@.len() as int) =~= cs@);
    if fields.len() > 0 || field.len() > 0 {
        close_line(&mut tasks, &mut fields, &mut field, Ghost(escaped));
    }
    tasks
}

impl ToDoList {
    /// The stored text of the whole list; saving writes exactly this,
    /// replacing what was stored before.
    pub fn save_text(&self) -> (r: String)
        ensures
            r@ == encode(self@),
    {
        encode_tasks(&self.tasks)
    }

    /// A list holding the tasks of a stored text.
    pub fn from_text(text: &str) -> (r: ToDoList)
        ensures
            r@ == decode(text@),
            r.wf(),
    {
        ToDoList { tasks: decode_tasks(text) }
    }

    /// Appends the tasks of a stored text.
    pub fn load_text(&mut self, text: &str)
        requires
            old(self).wf(),
        ensures
            final(self)@ == old(self)@ + decode(text@),
            final(self).wf(),
    {
        let mut more = decode_tasks(text);
        let ghost extra = models(more@);
        self.tasks.append(&mut more);
        assert(self@ =~= old(self)@ + extra);
    }
}

} // verus!
