//! The agent's own plan: how far it has come and what of it is shown.
use crate::i18n;
use crate::i18n::Catalog;
use crate::session::{TodoItem, TodoStatus};
use crate::text;
use vstd::prelude::*;

verus! {

/// How many entries are shown before the rest is summed up.
pub const TODO_VISIBLE_LIMIT: usize = 8;

impl TodoStatus {
    /// Whether an entry is still to be done.
    pub open spec fn open(self) -> bool {
        self == TodoStatus::Pending || self == TodoStatus::InProgress
    }

    /// Whether an entry is still to be done.
    pub fn is_open(self) -> (open: bool)
        ensures
            open == self.open(),
    {
        match self {
            TodoStatus::Pending => true,
            TodoStatus::InProgress => true,
            TodoStatus::Completed => false,
            TodoStatus::Cancelled => false,
        }
    }

    /// The icon of an entry.
    pub open spec fn glyph(self) -> Seq<char> {
        match self {
            TodoStatus::Completed => "icons/check.svg"@,
            TodoStatus::InProgress => "icons/loader-circle.svg"@,
            TodoStatus::Cancelled => "icons/x.svg"@,
            TodoStatus::Pending => "icons/queue.svg"@,
        }
    }
}

/// How many of the first `n` entries are done.
pub open spec fn completed_count(todos: Seq<TodoItem>, n: int) -> nat
    decreases n,
{
    if n <= 0 {
        0
    } else if todos[n - 1].status == TodoStatus::Completed {
        completed_count(todos, n - 1) + 1
    } else {
        completed_count(todos, n - 1)
    }
}

/// How many entries are done, and how many there are. One that was given up
/// is not done.
pub fn todo_progress(todos: &Vec<TodoItem>) -> (progress: (usize, usize))
    ensures
        progress.0 == completed_count(todos@, todos@.len() as int),
        progress.1 == todos@.len(),
        progress.0 <= progress.1,
{
    let mut completed: usize = 0;
    let mut i: usize = 0;
    while i < todos.len()
        invariant
            i <= todos@.len(),
            completed <= i,
            completed == completed_count(todos@, i as int),
        decreases todos@.len() - i,
    {
        if todos[i].status == TodoStatus::Completed {
            completed += 1;
        }
        i += 1;
    }
    (completed, todos.len())
}

/// How much of an entry's text stands out.
#[derive(Clone, Copy, Debug, PartialEq, Eq, Structural)]
pub enum TodoTone {
    Faint,
    Plain,
    Strong,
}

/// A row of the plan.
pub struct TodoRow {
    pub glyph: String,
    pub tone: TodoTone,
    pub content: String,
}

/// Whether a row shows an entry.
pub open spec fn shows_todo(row: TodoRow, todo: TodoItem) -> bool {
    &&& row.glyph@ == todo.status.glyph()
    &&& row.tone == (match todo.status {
        TodoStatus::Completed => TodoTone::Faint,
        TodoStatus::Cancelled => TodoTone::Faint,
        TodoStatus::InProgress => TodoTone::Strong,
        TodoStatus::Pending => TodoTone::Plain,
    })
    &&& row.content@ == todo.content@
}

fn todo_row(todo: &TodoItem) -> (row: TodoRow)
    ensures
        shows_todo(row, *todo),
{
    let content = todo.content.clone();
    match todo.status {
        TodoStatus::Completed => TodoRow {
            glyph: text::owned("icons/check.svg"),
            tone: TodoTone::Faint,
            content,
        },
        TodoStatus::InProgress => TodoRow {
            glyph: text::owned("icons/loader-circle.svg"),
            tone: TodoTone::Strong,
            content,
        },
        TodoStatus::Cancelled => TodoRow {
            glyph: text::owned("icons/x.svg"),
            tone: TodoTone::Faint,
            content,
        },
        TodoStatus::Pending => TodoRow {
            glyph: text::owned("icons/queue.svg"),
            tone: TodoTone::Plain,
            content,
        },
    }
}

/// The plan on screen.
pub struct TodoPanel {
    /// How many entries are done of how many.
    pub progress: String,
    pub rows: Vec<TodoRow>,
    /// How many more entries there are.
    pub more: Option<String>,
}

/// How many entries are shown.
pub open spec fn shown_count(total: nat) -> nat {
    if total <= TODO_VISIBLE_LIMIT {
        total
    } else {
        TODO_VISIBLE_LIMIT as nat
    }
}

/// The progress in digits.
pub open spec fn progress_label(todos: Seq<TodoItem>) -> Seq<char> {
    text::decimal_digits(completed_count(todos, todos.len() as int)) + "/"@ + text::decimal_digits(
        todos.len(),
    )
}

/// The progress in digits.
pub fn todo_progress_label(todos: &Vec<TodoItem>) -> (label: String)
    ensures
        label@ == progress_label(todos@),
{
    let (completed, total) = todo_progress(todos);
    let mut label = text::decimal(completed as u64);
    label.append("/");
    let all = text::decimal(total as u64);
    label.append(all.as_str());
    label
}

/// The plan on screen, if there is one: its first entries, and how many more
/// there are.
pub fn todo_panel(catalog: &Catalog, todos: &Vec<TodoItem>) -> (panel: Option<TodoPanel>)
    ensures
        todos@.len() == 0 ==> panel is None,
        todos@.len() > 0 ==> ({
            &&& panel matches Some(panel)
            &&& panel.progress@ == progress_label(todos@)
            &&& panel.rows@.len() == shown_count(todos@.len())
            &&& forall|i: int|
                0 <= i < panel.rows@.len() ==> shows_todo(#[trigger] panel.rows@[i], todos@[i])
            &&& text::text_view(panel.more) == (if todos@.len() > TODO_VISIBLE_LIMIT {
                Some(
                    i18n::counted(
                        catalog@,
                        "todo.more"@,
                        (todos@.len() - TODO_VISIBLE_LIMIT) as nat,
                    ),
                )
            } else {
                None
            })
        }),
{
    if todos.is_empty() {
        return None;
    }
    let total: usize = todos.len();
    let mut rows: Vec<TodoRow> = Vec::new();
    let mut i: usize = 0;
    while i < total && i < TODO_VISIBLE_LIMIT
        invariant
            i <= total,
            total == todos@.len(),
            i <= TODO_VISIBLE_LIMIT,
            rows@.len() == i,
            forall|k: int| 0 <= k < i ==> shows_todo(#[trigger] rows@[k], todos@[k]),
        decreases total - i,
    {
        rows.push(todo_row(&todos[i]));
        i += 1;
    }
    let hidden: usize = total.saturating_sub(TODO_VISIBLE_LIMIT);
    let more = if hidden > 0 {
        Some(catalog.text_with_count("todo.more", hidden as u64))
    } else {
        None
    };
    Some(TodoPanel { progress: todo_progress_label(todos), rows, more })
}

proof fn lemma_completed_bound(todos: Seq<TodoItem>, n: int)
    requires
        0 <= n <= todos.len(),
    ensures
        completed_count(todos, n) <= n,
        completed_count(todos, n) == n ==> forall|i: int|
            0 <= i < n ==> (#[trigger] todos[i]).status == TodoStatus::Completed,
    decreases n,
{
    if n > 0 {
        lemma_completed_bound(todos, n - 1);
    }
}

/// A plan counts as done only where every entry is: neither one that is open
/// nor one that was given up lets it.
pub proof fn an_abandoned_plan_is_not_done(todos: Seq<TodoItem>, i: int)
    requires
        0 <= i < todos.len(),
        todos[i].status != TodoStatus::Completed,
    ensures
        completed_count(todos, todos.len() as int) < todos.len(),
{
    lemma_completed_bound(todos, todos.len() as int);
}

} // verus!
