//! The one-time move from plain text files, one item per line, to the
//! Markdown documents.

use vstd::prelude::*;
use crate::archive::{default_list, default_list_name, with_items};
use crate::model::{ArchiveFile, Task, TaskView, TodoFile, TodoView, task_of, tasks_view};
use crate::text::{chars_of, lines_of, next_line, string_of, trim, trim_range};
use crate::todo::{default_title, default_title_string};

verus! {

/// A migration is due where an old file exists and no new one does.
pub fn needs_migration(
    note_exists: bool,
    archive_exists: bool,
    todo_md_exists: bool,
    archive_md_exists: bool,
) -> (r: bool)
    ensures
        r == ((note_exists || archive_exists) && !(todo_md_exists || archive_md_exists)),
{
    (note_exists || archive_exists) && !(todo_md_exists || archive_md_exists)
}

/// The skeleton of a new todo document.
pub fn create_empty_todo_file() -> (r: TodoFile)
    ensures
        r@ == (TodoView { title: default_title(), tasks: seq![] }),
{
    TodoFile::new(default_title_string())
}

/// One task per non-blank line, its text trimmed.
pub open spec fn plain_tasks(lines: Seq<Seq<char>>) -> Seq<TaskView>
    decreases lines.len(),
{
    if lines.len() == 0 {
        seq![]
    } else {
        let l = lines[0];
        let rest = plain_tasks(lines.drop_first());
        if trim(l).len() == 0 {
            rest
        } else {
            seq![task_of(trim(l))] + rest
        }
    }
}

/// The tasks of a plain text file.
pub fn plain_text_tasks(content: &str) -> (r: Vec<Task>)
    ensures
        tasks_view(r@) == plain_tasks(lines_of(content@)),
{
    let v = chars_of(content);
    let n = v.len();
    let mut out: Vec<Task> = Vec::new();
    let mut pos: usize = 0;
    assert(v@.skip(0) =~= v@);
    assert(tasks_view(out@) =~= Seq::<TaskView>::empty());
    while pos < n
        invariant
            pos <= n == v.len(),
            v@ == content@,
            tasks_view(out@) + plain_tasks(lines_of(v@.skip(pos as int))) == plain_tasks(
                lines_of(content@),
            ),
        decreases n - pos,
    {
        let (le, next) = next_line(&v, pos);
        let ghost line = v@.subrange(pos as int, le as int);
        let ghost rest = lines_of(v@.skip(next as int));
        assert((seq![line] + rest).drop_first() =~= rest);
        assert((seq![line] + rest)[0] == line);
        let (a, b) = trim_range(&v, pos, le);
        if a < b {
            let t = Task::new(string_of(&v, a, b));
            let ghost before = out@;
            out.push(t);
            assert(out@ =~= before.push(t));
            assert(tasks_view(out@) =~= tasks_view(before).push(t@));
            assert(tasks_view(out@) + plain_tasks(rest) =~= tasks_view(before) + plain_tasks(
                seq![line] + rest,
            ));
        }
        pos = next;
    }
    assert(v@.skip(n as int) =~= Seq::<char>::empty());
    assert(tasks_view(out@) + Seq::<TaskView>::empty() =~= tasks_view(out@));
    out
}

/// A todo document holding one task per non-blank line of a plain text
/// file.
pub fn todo_from_plain_text(content: &str) -> (r: TodoFile)
    ensures
        r@ == (TodoView { title: default_title(), tasks: plain_tasks(lines_of(content@)) }),
{
    let mut doc = create_empty_todo_file();
    doc.tasks = plain_text_tasks(content);
    doc
}

/// An archive holding the lines of a plain text archive file as one entry
/// for `date`; empty where the file has no item.
pub fn archive_from_plain_text_on(content: &str, date: &str) -> (r: ArchiveFile)
    ensures
        r@.wf(),
        plain_tasks(lines_of(content@)).len() == 0 ==> r@ == ArchiveFile::new_view(),
        plain_tasks(lines_of(content@)).len() > 0 ==> r@ == with_items(
            ArchiveFile::new_view(),
            date@,
            default_list(),
            plain_tasks(lines_of(content@)),
        ),
{
    let mut archive = ArchiveFile::new();
    let tasks = plain_text_tasks(content);
    if tasks.len() > 0 {
        let name = default_list_name();
        archive.add_items_for_date(date, name.as_str(), tasks);
    }
    archive
}

/// `archive_from_plain_text_on` with today's date.
pub fn archive_from_plain_text(content: &str) -> (r: ArchiveFile)
    ensures
        r@.wf(),
        plain_tasks(lines_of(content@)).len() == 0 ==> r@ == ArchiveFile::new_view(),
        plain_tasks(lines_of(content@)).len() > 0 ==> exists|date: Seq<char>|
            r@ == with_items(
                ArchiveFile::new_view(),
                date,
                default_list(),
                plain_tasks(lines_of(content@)),
            ),
{
    let date = crate::archive::today();
    archive_from_plain_text_on(content, date.as_str())
}

} // verus!
