//! What each task's line says, and which semantic role each piece plays;
//! the colours for the roles are chosen by whoever paints the text.
use vstd::prelude::*;
use crate::task::{dep_count, sort_tasks, sorted_by_count, Task};
use crate::text::{decimal, push_decimal};

verus! {

/// The semantic role of a piece of a line.
#[derive(Clone, Copy, Debug, PartialEq, Eq, Structural)]
pub enum Role {
    /// The leading `Task` label.
    Label,
    /// Punctuation between the fields.
    Plain,
    /// The task's name.
    Value,
    /// The due date, shown subdued.
    Muted,
    /// The dependency count.
    Count,
}

/// One piece of a rendered line.
#[derive(Debug)]
pub struct Span {
    pub text: String,
    pub role: Role,
}

pub open spec fn span_view(s: Span) -> (Seq<char>, Role) {
    (s.text@, s.role)
}

/// The pieces' texts and roles.
pub open spec fn spans_view(v: Seq<Span>) -> Seq<(Seq<char>, Role)> {
    v.map_values(|s: Span| span_view(s))
}

pub open spec fn label_text() -> Seq<char> {
    seq!['T', 'a', 's', 'k']
}

pub open spec fn colon_text() -> Seq<char> {
    seq![':', ' ']
}

pub open spec fn due_open_text() -> Seq<char> {
    seq![' ', '(', 'd', 'u', 'e', ' ']
}

pub open spec fn due_close_text() -> Seq<char> {
    seq![')', ' ', '+']
}

/// The pieces of a task's line: `Task: <name>`, followed, when the task is
/// due, by ` (due <date>) +<dependency count>`.
pub open spec fn line_spans(t: Task) -> Seq<(Seq<char>, Role)> {
    let head = seq![(label_text(), Role::Label), (colon_text(), Role::Plain), (t.name@, Role::Value)];
    match t.due {
        None => head,
        Some(d) => head + seq![
            (due_open_text(), Role::Plain),
            (d@, Role::Muted),
            (due_close_text(), Role::Plain),
            (decimal(dep_count(t) as nat), Role::Count),
        ],
    }
}

/// The texts of the pieces, one after another.
pub open spec fn joined(s: Seq<(Seq<char>, Role)>) -> Seq<char>
    decreases s.len(),
{
    if s.len() == 0 {
        Seq::empty()
    } else {
        joined(s.drop_last()) + s.last().0
    }
}

/// A task's line as plain text.
pub open spec fn line_text(t: Task) -> Seq<char> {
    joined(line_spans(t))
}

fn literal(s: &str) -> (r: String)
    ensures
        r@ == s@,
{
    String::from_str(s)
}

/// The pieces of a task's line, each with its role.
pub fn render_spans(task: &Task) -> (r: Vec<Span>)
    ensures
        spans_view(r@) == line_spans(*task),
{
    proof {
        reveal_strlit("Task");
        reveal_strlit(": ");
        reveal_strlit(" (due ");
        reveal_strlit(") +");
        assert("Task"@ =~= label_text());
        assert(": "@ =~= colon_text());
        assert(" (due "@ =~= due_open_text());
        assert(") +"@ =~= due_close_text());
    }
    let mut r: Vec<Span> = Vec::new();
    r.push(Span { text: literal("Task"), role: Role::Label });
    r.push(Span { text: literal(": "), role: Role::Plain });
    r.push(Span { text: task.name.clone(), role: Role::Value });
    match &task.due {
        None => {},
        Some(d) => {
            r.push(Span { text: literal(" (due "), role: Role::Plain });
            r.push(Span { text: d.clone(), role: Role::Muted });
            r.push(Span { text: literal(") +"), role: Role::Plain });
            let mut count = String::new();
            push_decimal(&mut count, task.dependencies.len() as u64, 1);
            r.push(Span { text: count, role: Role::Count });
        },
    }
    assert(spans_view(r@) =~= line_spans(*task));
    r
}

/// A task's line as plain text.
pub fn render_line(task: &Task) -> (r: String)
    ensures
        r@ == line_text(*task),
{
    let spans = render_spans(task);
    let ghost views = spans_view(spans@);
    let mut out = String::new();
    let mut i: usize = 0;
    while i < spans.len()
        invariant
            i <= spans@.len(),
            views == spans_view(spans@),
            views == line_spans(*task),
            out@ == joined(views.take(i as int)),
        decreases spans@.len() - i,
    {
        out.append(spans[i].text.as_str());
        proof {
            assert(views.take(i + 1).drop_last() =~= views.take(i as int));
        }
        i = i + 1;
    }
    assert(views.take(i as int) =~= views);
    out
}

/// One line of plain text per task, in the order given.
pub fn render(tasks: &Vec<Task>) -> (r: Vec<String>)
    ensures
        r@.len() == tasks@.len(),
        forall|i: int| 0 <= i < r@.len() ==> #[trigger] r@[i]@ == line_text(tasks@[i]),
{
    let mut r: Vec<String> = Vec::new();
    let mut i: usize = 0;
    while i < tasks.len()
        invariant
            i <= tasks@.len(),
            r@.len() == i,
            forall|j: int| 0 <= j < i ==> #[trigger] r@[j]@ == line_text(tasks@[j]),
        decreases tasks@.len() - i,
    {
        r.push(render_line(&tasks[i]));
        i = i + 1;
    }
    r
}

/// Sorts the tasks by dependency count, stably, and gives the pieces of
/// each one's line in that order.
pub fn list_tasks(tasks: &mut Vec<Task>) -> (lines: Vec<Vec<Span>>)
    ensures
        final(tasks)@ == sorted_by_count(old(tasks)@),
        lines@.len() == final(tasks)@.len(),
        forall|i: int| 0 <= i < lines@.len()
            ==> #[trigger] spans_view(lines@[i]@) == line_spans(final(tasks)@[i]),
{
    sort_tasks(tasks);
    let mut lines: Vec<Vec<Span>> = Vec::new();
    let mut i: usize = 0;
    while i < tasks.len()
        invariant
            i <= tasks@.len(),
            lines@.len() == i,
            forall|j: int| 0 <= j < i
                ==> #[trigger] spans_view(lines@[j]@) == line_spans(tasks@[j]),
        decreases tasks@.len() - i,
    {
        lines.push(render_spans(&tasks[i]));
        i = i + 1;
    }
    lines
}

} // verus!
