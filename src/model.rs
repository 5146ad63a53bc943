//! The document model: tasks with one level of subtasks, the todo document,
//! and the archive document with its dated entries and named lists.

use vstd::prelude::*;

verus! {

/// What a task is: its text and its subtasks' texts, in order.
pub struct TaskView {
    pub text: Seq<char>,
    pub subtasks: Seq<Seq<char>>,
}

/// What a todo document is: a title and its tasks, in order.
pub struct TodoView {
    pub title: Seq<char>,
    pub tasks: Seq<TaskView>,
}

/// A list of an archive entry: its name and its tasks.
pub struct ListView {
    pub name: Seq<char>,
    pub tasks: Seq<TaskView>,
}

/// A dated archive entry with its lists, in the order they were opened.
pub struct EntryView {
    pub date: Seq<char>,
    pub lists: Seq<ListView>,
}

/// An archive document: a title and its entries, newest first.
pub struct ArchiveView {
    pub title: Seq<char>,
    pub entries: Seq<EntryView>,
}

pub open spec fn task_of(text: Seq<char>) -> TaskView {
    TaskView { text, subtasks: seq![] }
}

pub open spec fn strings_view(v: Seq<String>) -> Seq<Seq<char>> {
    v.map_values(|s: String| s@)
}

pub open spec fn tasks_view(v: Seq<Task>) -> Seq<TaskView> {
    v.map_values(|t: Task| t@)
}

/// A single task with optional subtasks.
#[derive(Debug, Clone, PartialEq)]
pub struct Task {
    pub text: String,
    pub subtasks: Vec<String>,
}

impl View for Task {
    type V = TaskView;

    open spec fn view(&self) -> TaskView {
        TaskView { text: self.text@, subtasks: strings_view(self.subtasks@) }
    }
}

/// The todo document: a title and one ordered list of tasks.
#[derive(Debug, Clone, PartialEq)]
pub struct TodoFile {
    pub title: String,
    pub tasks: Vec<Task>,
}

impl View for TodoFile {
    type V = TodoView;

    open spec fn view(&self) -> TodoView {
        TodoView { title: self.title@, tasks: tasks_view(self.tasks@) }
    }
}

/// A named list of tasks inside an archive entry.
#[derive(Debug, Clone, PartialEq)]
pub struct NamedList {
    pub name: String,
    pub tasks: Vec<Task>,
}

impl View for NamedList {
    type V = ListView;

    open spec fn view(&self) -> ListView {
        ListView { name: self.name@, tasks: tasks_view(self.tasks@) }
    }
}

/// One day of the archive: its date and the lists archived that day.
#[derive(Debug, Clone, PartialEq)]
pub struct ArchiveEntry {
    pub date: String,
    pub lists: Vec<NamedList>,
}

impl View for ArchiveEntry {
    type V = EntryView;

    open spec fn view(&self) -> EntryView {
        EntryView { date: self.date@, lists: self.lists@.map_values(|l: NamedList| l@) }
    }
}

/// The archive document: a title and its entries, newest first.
#[derive(Debug, Clone, PartialEq)]
pub struct ArchiveFile {
    pub title: String,
    pub entries: Vec<ArchiveEntry>,
}

impl View for ArchiveFile {
    type V = ArchiveView;

    open spec fn view(&self) -> ArchiveView {
        ArchiveView {
            title: self.title@,
            entries: self.entries@.map_values(|e: ArchiveEntry| e@),
        }
    }
}

/// No two lists of an entry share a name.
pub open spec fn lists_distinct(lists: Seq<ListView>) -> bool {
    forall|i: int, j: int|
        0 <= i < lists.len() && 0 <= j < lists.len() && i != j ==> lists[i].name
            != lists[j].name
}

impl ArchiveView {
    pub open spec fn wf(self) -> bool {
        forall|i: int| 0 <= i < self.entries.len() ==> lists_distinct(#[trigger] self.entries[i].lists)
    }
}

/// A copy of a string vector, element by element.
pub fn copy_strings(v: &Vec<String>) -> (r: Vec<String>)
    ensures
        r@ == v@,
{
    let r = v.clone();
    assert(r@ =~= v@);
    r
}

/// Copies of the tasks, in order.
pub fn copy_tasks(v: &Vec<Task>) -> (r: Vec<Task>)
    ensures
        tasks_view(r@) == tasks_view(v@),
{
    let mut r: Vec<Task> = Vec::new();
    let mut k: usize = 0;
    while k < v.len()
        invariant
            k <= v.len(),
            tasks_view(r@) == tasks_view(v@).take(k as int),
        decreases v.len() - k,
    {
        let t = v[k].copy();
        let ghost before = r@;
        r.push(t);
        assert(r@ =~= before.push(t));
        assert(tasks_view(r@) =~= tasks_view(before).push(t@));
        assert(t@ == tasks_view(v@)[k as int]);
        assert(tasks_view(r@) =~= tasks_view(v@).take(k + 1));
        k = k + 1;
    }
    assert(tasks_view(v@).take(k as int) =~= tasks_view(v@));
    r
}

impl Task {
    pub fn new(text: String) -> (r: Task)
        ensures
            r@ == task_of(text@),
    {
        let r = Task { text, subtasks: Vec::new() };
        assert(r@.subtasks =~= Seq::<Seq<char>>::empty());
        r
    }

    pub fn with_subtasks(text: String, subtasks: Vec<String>) -> (r: Task)
        ensures
            r.text == text,
            r.subtasks == subtasks,
    {
        Task { text, subtasks }
    }

    pub fn add_subtask(&mut self, subtask: String)
        ensures
            final(self)@ == (TaskView {
                subtasks: old(self)@.subtasks.push(subtask@),
                ..old(self)@
            }),
    {
        self.subtasks.push(subtask);
        assert(strings_view(self.subtasks@) =~= strings_view(old(self).subtasks@).push(subtask@));
    }

    pub fn has_subtasks(&self) -> (r: bool)
        ensures
            r == (self@.subtasks.len() > 0),
    {
        self.subtasks.len() > 0
    }

    pub fn subtask_count(&self) -> (r: usize)
        ensures
            r == self@.subtasks.len(),
    {
        self.subtasks.len()
    }

    /// A copy that has the same view.
    pub fn copy(&self) -> (r: Task)
        ensures
            r@ == self@,
    {
        let r = Task { text: self.text.clone(), subtasks: copy_strings(&self.subtasks) };
        r
    }
}

impl TodoFile {
    pub fn new(title: String) -> (r: TodoFile)
        ensures
            r@ == (TodoView { title: title@, tasks: seq![] }),
    {
        let r = TodoFile { title, tasks: Vec::new() };
        assert(r@.tasks =~= Seq::<TaskView>::empty());
        r
    }

    /// Appends a task at the end.
    pub fn add_task(&mut self, task: Task)
        ensures
            final(self)@ == (TodoView { tasks: old(self)@.tasks.push(task@), ..old(self)@ }),
    {
        self.tasks.push(task);
        assert(tasks_view(self.tasks@) =~= tasks_view(old(self).tasks@).push(task@));
    }

    /// Puts a task in front of all others.
    pub fn prepend_task(&mut self, task: Task)
        ensures
            final(self)@ == (TodoView {
                tasks: seq![task@] + old(self)@.tasks,
                ..old(self)@
            }),
    {
        self.tasks.insert(0, task);
        assert(tasks_view(self.tasks@) =~= seq![task@] + tasks_view(old(self).tasks@));
    }

    pub fn is_empty(&self) -> (r: bool)
        ensures
            r == (self@.tasks.len() == 0),
    {
        self.tasks.len() == 0
    }

    pub fn task_count(&self) -> (r: usize)
        ensures
            r == self@.tasks.len(),
    {
        self.tasks.len()
    }
}

} // verus!
