//! The mutation engine: add, prioritize, and remove (the core of archive),
//! each validating all of its input before it changes anything.

use vstd::prelude::*;
use crate::archive::{default_list, default_list_name, extend_tasks, with_items};
use crate::model::{
    ArchiveFile, Task, TaskView, TodoFile, TodoView, copy_tasks, strings_view, task_of,
    tasks_view,
};
use crate::reference::{TaskRef, is_valid_ref, ref_of};
use crate::text::{chars_of, trim, trim_range};

verus! {

/// The longest task text, in characters.
pub const MAX_TASK_LENGTH: usize = 500;

/// The most top-level tasks a document holds.
pub const MAX_TASKS: usize = 1000;

/// The most subtasks a task holds: one per letter `a..z`.
pub const MAX_SUBTASKS: usize = 26;

/// Which limit an addition would break.
#[derive(Debug, Clone, Copy, PartialEq, Eq, Structural)]
pub enum Limit {
    TextLength,
    TaskCount,
    /// The 1-based number of the task that is full.
    SubtaskCount(usize),
}

/// Why an operation was refused. Nothing is changed when one is returned.
#[derive(Debug, Clone, PartialEq)]
pub enum TodoError {
    /// The text to add is empty or only white space.
    EmptyInput,
    /// A reference that does not follow the grammar, with the reason.
    InvalidReference { reference: String, reason: String },
    /// A reference to a task, or to a subtask of it, that does not exist.
    /// `available` is the number of tasks, or of the task's subtasks.
    OutOfRange { task_number: usize, subtask_index: Option<usize>, available: usize },
    LimitExceeded(Limit),
}

/// Whether a resolved reference names a task, and subtask, of the document.
pub open spec fn ref_in_range(doc: TodoView, r: TaskRef) -> bool {
    &&& r.task_index < doc.tasks.len()
    &&& match r.subtask_index {
        Some(j) => j < doc.tasks[r.task_index as int].subtasks.len(),
        None => true,
    }
}

pub open spec fn ref_ok(doc: TodoView, s: Seq<char>) -> bool {
    is_valid_ref(s) && ref_in_range(doc, ref_of(s))
}

/// The error that a bad reference `s` gives.
pub open spec fn is_ref_error(e: TodoError, doc: TodoView, s: Seq<char>) -> bool {
    if !is_valid_ref(s) {
        e is InvalidReference && e->InvalidReference_reference@ == s
    } else {
        let r = ref_of(s);
        e == TodoError::OutOfRange {
            task_number: (r.task_index + 1) as usize,
            subtask_index: r.subtask_index,
            available: if r.task_index < doc.tasks.len() {
                doc.tasks[r.task_index as int].subtasks.len() as usize
            } else {
                doc.tasks.len() as usize
            },
        }
    }
}

/// All references resolve inside the document.
pub open spec fn all_refs_ok(doc: TodoView, refs: Seq<Seq<char>>) -> bool {
    forall|k: int| 0 <= k < refs.len() ==> ref_ok(doc, #[trigger] refs[k])
}

/// `e` is the error of the first reference that does not resolve.
pub open spec fn is_first_ref_error(e: TodoError, doc: TodoView, refs: Seq<Seq<char>>) -> bool {
    exists|k: int|
        0 <= k < refs.len() && !ref_ok(doc, #[trigger] refs[k]) && (forall|i: int|
            0 <= i < k ==> ref_ok(doc, #[trigger] refs[i])) && is_ref_error(e, doc, refs[k])
}

/// Resolves every reference against the document, stopping at the first
/// one that does not parse or points outside it.
pub fn resolve_refs(doc: &TodoFile, refs: &[String]) -> (r: Result<Vec<TaskRef>, TodoError>)
    ensures
        r is Ok <==> all_refs_ok(doc@, strings_view(refs@)),
        r is Ok ==> r->Ok_0@ == strings_view(refs@).map_values(|s: Seq<char>| ref_of(s)),
        r is Err ==> is_first_ref_error(r->Err_0, doc@, strings_view(refs@)),
{
    let ghost ss = strings_view(refs@);
    let mut out: Vec<TaskRef> = Vec::new();
    let mut k: usize = 0;
    while k < refs.len()
        invariant
            k <= refs.len(),
            ss == strings_view(refs@),
            forall|i: int| 0 <= i < k ==> ref_ok(doc@, #[trigger] ss[i]),
            out@ == ss.take(k as int).map_values(|s: Seq<char>| ref_of(s)),
        decreases refs.len() - k,
    {
        let s = &refs[k];
        assert(ss[k as int] == s@);
        match TaskRef::parse(s.as_str()) {
            Err(reason) => {
                return Err(TodoError::InvalidReference { reference: s.clone(), reason });
            },
            Ok(r) => {
                if r.task_index >= doc.tasks.len() {
                    return Err(
                        TodoError::OutOfRange {
                            task_number: r.task_index + 1,
                            subtask_index: r.subtask_index,
                            available: doc.tasks.len(),
                        },
                    );
                }
                match r.subtask_index {
                    Some(j) => {
                        let count = doc.tasks[r.task_index].subtasks.len();
                        assert(count == doc@.tasks[r.task_index as int].subtasks.len());
                        if j >= count {
                            return Err(
                                TodoError::OutOfRange {
                                    task_number: r.task_index + 1,
                                    subtask_index: r.subtask_index,
                                    available: count,
                                },
                            );
                        }
                    },
                    None => {},
                }
                out.push(r);
                assert(ss.take(k + 1).map_values(|s: Seq<char>| ref_of(s)) =~= ss.take(
                    k as int,
                ).map_values(|s: Seq<char>| ref_of(s)).push(ref_of(ss[k as int])));
            },
        }
        k = k + 1;
    }
    assert(ss.take(k as int) =~= ss);
    Ok(out)
}

// ---------------------------------------------------------------- add

/// The document after `add`, or the error it gives.
pub open spec fn add_result(doc: TodoView, text: Seq<char>, under: Option<usize>) -> Result<
    TodoView,
    TodoError,
> {
    if trim(text).len() == 0 {
        Err(TodoError::EmptyInput)
    } else if text.len() > MAX_TASK_LENGTH {
        Err(TodoError::LimitExceeded(Limit::TextLength))
    } else {
        match under {
            Some(n) => if n == 0 || n > doc.tasks.len() {
                Err(
                    TodoError::OutOfRange {
                        task_number: n,
                        subtask_index: None,
                        available: doc.tasks.len() as usize,
                    },
                )
            } else if doc.tasks[n - 1].subtasks.len() >= MAX_SUBTASKS {
                Err(TodoError::LimitExceeded(Limit::SubtaskCount(n)))
            } else {
                let t = doc.tasks[n - 1];
                Ok(
                    TodoView {
                        tasks: doc.tasks.update(
                            n - 1,
                            TaskView { subtasks: t.subtasks.push(text), ..t },
                        ),
                        ..doc
                    },
                )
            },
            None => if doc.tasks.len() >= MAX_TASKS {
                Err(TodoError::LimitExceeded(Limit::TaskCount))
            } else {
                Ok(TodoView { tasks: seq![task_of(text)] + doc.tasks, ..doc })
            },
        }
    }
}

/// The limits of a document: at most `MAX_TASKS` tasks, each with at most
/// `MAX_SUBTASKS` subtasks.
pub open spec fn within_limits(doc: TodoView) -> bool {
    &&& doc.tasks.len() <= MAX_TASKS
    &&& forall|i: int| 0 <= i < doc.tasks.len() ==> (#[trigger] doc.tasks[i]).subtasks.len() <= MAX_SUBTASKS
}

/// Adding keeps a document within its limits, and what it adds is never
/// blank nor longer than `MAX_TASK_LENGTH` characters.
pub proof fn lemma_add_keeps_limits(doc: TodoView, text: Seq<char>, under: Option<usize>)
    requires
        within_limits(doc),
    ensures
        add_result(doc, text, under) is Ok ==> {
            &&& within_limits(add_result(doc, text, under)->Ok_0)
            &&& trim(text).len() > 0
            &&& text.len() <= MAX_TASK_LENGTH
        },
{
    if add_result(doc, text, under) is Ok {
        let d = add_result(doc, text, under)->Ok_0;
        match under {
            Some(n) => {
                assert forall|i: int| 0 <= i < d.tasks.len() implies (#[trigger] d.tasks[i]).subtasks.len()
                    <= MAX_SUBTASKS by {
                    if i != n - 1 {
                        assert(d.tasks[i] == doc.tasks[i]);
                    }
                }
            },
            None => {
                assert forall|i: int| 0 <= i < d.tasks.len() implies (#[trigger] d.tasks[i]).subtasks.len()
                    <= MAX_SUBTASKS by {
                    if i > 0 {
                        assert(d.tasks[i] == doc.tasks[i - 1]);
                    }
                }
            },
        }
    }
}

/// Adds `text` as a new first task, or, with `under = Some(n)`, as the last
/// subtask of task `n` (1-based).
pub fn add_entry_to_todo(todo: &mut TodoFile, text: &str, under: Option<usize>) -> (r: Result<
    (),
    TodoError,
>)
    ensures
        match add_result(old(todo)@, text@, under) {
            Ok(d) => r is Ok && final(todo)@ == d,
            Err(e) => r == Err::<(), TodoError>(e) && final(todo)@ == old(todo)@,
        },
{
    let v = chars_of(text);
    let (a, b) = trim_range(&v, 0, v.len());
    assert(v@.subrange(0, v.len() as int) =~= v@);
    if a == b {
        return Err(TodoError::EmptyInput);
    }
    if v.len() > MAX_TASK_LENGTH {
        return Err(TodoError::LimitExceeded(Limit::TextLength));
    }
    let n_tasks = todo.tasks.len();
    match under {
        Some(n) => {
            if n == 0 || n > n_tasks {
                return Err(
                    TodoError::OutOfRange { task_number: n, subtask_index: None, available: n_tasks },
                );
            }
            if todo.tasks[n - 1].subtasks.len() >= MAX_SUBTASKS {
                return Err(TodoError::LimitExceeded(Limit::SubtaskCount(n)));
            }
            let mut task = todo.tasks[n - 1].copy();
            task.add_subtask(text.to_owned());
            todo.tasks.set(n - 1, task);
            assert(final(todo)@.tasks =~= add_result(old(todo)@, text@, under)->Ok_0.tasks);
            Ok(())
        },
        None => {
            if n_tasks >= MAX_TASKS {
                return Err(TodoError::LimitExceeded(Limit::TaskCount));
            }
            todo.prepend_task(Task::new(text.to_owned()));
            Ok(())
        },
    }
}

// ---------------------------------------------------------------- prioritize

/// `s` without repeats, each value kept where it first occurs.
pub open spec fn dedup_first(s: Seq<usize>) -> Seq<usize>
    decreases s.len(),
{
    if s.len() == 0 {
        seq![]
    } else {
        let d = dedup_first(s.drop_last());
        if d.contains(s.last()) {
            d
        } else {
            d.push(s.last())
        }
    }
}

/// The indices below `n` that `order` does not hold, ascending.
pub open spec fn rest_indices(order: Seq<usize>, n: nat) -> Seq<usize>
    decreases n,
{
    if n == 0 {
        seq![]
    } else {
        let r = rest_indices(order, (n - 1) as nat);
        if order.contains((n - 1) as usize) {
            r
        } else {
            r.push((n - 1) as usize)
        }
    }
}

/// The indices `0..n` with those of `order` moved to the front, in that
/// order, and the others after them in their own order.
pub open spec fn moved_first(order: Seq<usize>, n: nat) -> Seq<usize> {
    order + rest_indices(order, n)
}

/// The items at the given indices.
pub open spec fn gather<T>(items: Seq<T>, idx: Seq<usize>) -> Seq<T> {
    idx.map_values(|i: usize| items[i as int])
}

/// The task indices that a list of references names.
pub open spec fn ref_tasks(refs: Seq<Seq<char>>) -> Seq<usize> {
    refs.map_values(|s: Seq<char>| ref_of(s).task_index)
}

pub proof fn lemma_dedup_within(s: Seq<usize>)
    ensures
        forall|i: int| 0 <= i < dedup_first(s).len() ==> s.contains(#[trigger] dedup_first(s)[i]),
        forall|i: int, j: int|
            0 <= i < j < dedup_first(s).len() ==> dedup_first(s)[i] != dedup_first(s)[j],
    decreases s.len(),
{
    if s.len() > 0 {
        lemma_dedup_within(s.drop_last());
        let d = dedup_first(s.drop_last());
        assert forall|i: int| 0 <= i < dedup_first(s).len() implies s.contains(
            #[trigger] dedup_first(s)[i],
        ) by {
            if i < d.len() {
                let x = d[i];
                let k = choose|k: int| 0 <= k < s.drop_last().len() && s.drop_last()[k] == x;
                assert(s[k] == x);
            } else {
                assert(s[s.len() - 1] == s.last());
            }
        }
    }
}

pub proof fn lemma_rest_within(order: Seq<usize>, n: nat)
    requires
        n <= usize::MAX + 1,
    ensures
        forall|i: int| 0 <= i < rest_indices(order, n).len() ==> #[trigger] rest_indices(order, n)[i] < n,
    decreases n,
{
    if n > 0 {
        lemma_rest_within(order, (n - 1) as nat);
        let r = rest_indices(order, (n - 1) as nat);
        assert forall|i: int| 0 <= i < rest_indices(order, n).len() implies #[trigger] rest_indices(
            order,
            n,
        )[i] < n by {
            if i < r.len() {
                assert(rest_indices(order, n)[i] == r[i]);
            }
        }
    }
}

/// Whether `v` holds `x`.
pub fn holds_index(v: &Vec<usize>, x: usize) -> (r: bool)
    ensures
        r == v@.contains(x),
{
    let mut i: usize = 0;
    while i < v.len()
        invariant
            i <= v.len(),
            forall|k: int| 0 <= k < i ==> v@[k] != x,
        decreases v.len() - i,
    {
        if v[i] == x {
            return true;
        }
        i = i + 1;
    }
    false
}

/// The values of `s`, each once, in order of first occurrence.
pub fn dedup_indices(s: &Vec<usize>) -> (r: Vec<usize>)
    ensures
        r@ == dedup_first(s@),
{
    let mut r: Vec<usize> = Vec::new();
    let mut k: usize = 0;
    while k < s.len()
        invariant
            k <= s.len(),
            r@ == dedup_first(s@.take(k as int)),
        decreases s.len() - k,
    {
        assert(s@.take(k + 1).drop_last() =~= s@.take(k as int));
        if !holds_index(&r, s[k]) {
            r.push(s[k]);
        }
        k = k + 1;
    }
    assert(s@.take(k as int) =~= s@);
    r
}

/// The indices `0..n` with those of `order` first.
pub fn moved_first_indices(order: &Vec<usize>, n: usize) -> (r: Vec<usize>)
    ensures
        r@ == moved_first(order@, n as nat),
{
    let mut r = order.clone();
    assert(r@ =~= order@);
    let mut i: usize = 0;
    while i < n
        invariant
            i <= n,
            r@ == order@ + rest_indices(order@, i as nat),
        decreases n - i,
    {
        if !holds_index(order, i) {
            r.push(i);
            assert(order@ + rest_indices(order@, (i + 1) as nat) =~= (order@ + rest_indices(
                order@,
                i as nat,
            )).push(i));
        }
        i = i + 1;
    }
    r
}

/// Copies of the tasks at the given indices.
pub fn gather_tasks(tasks: &Vec<Task>, idx: &Vec<usize>) -> (r: Vec<Task>)
    requires
        forall|i: int| 0 <= i < idx.len() ==> #[trigger] idx@[i] < tasks.len(),
    ensures
        tasks_view(r@) == gather(tasks_view(tasks@), idx@),
{
    let mut r: Vec<Task> = Vec::new();
    let mut k: usize = 0;
    while k < idx.len()
        invariant
            k <= idx.len(),
            forall|i: int| 0 <= i < idx.len() ==> #[trigger] idx@[i] < tasks.len(),
            tasks_view(r@) == gather(tasks_view(tasks@), idx@.take(k as int)),
        decreases idx.len() - k,
    {
        let t = tasks[idx[k]].copy();
        let ghost before = r@;
        r.push(t);
        assert(r@ =~= before.push(t));
        assert(tasks_view(r@) =~= tasks_view(before).push(t@));
        assert(t@ == tasks_view(tasks@)[idx@[k as int] as int]);
        assert(gather(tasks_view(tasks@), idx@.take(k + 1)) =~= gather(
            tasks_view(tasks@),
            idx@.take(k as int),
        ).push(tasks_view(tasks@)[idx@[k as int] as int]));
        assert(tasks_view(r@) =~= gather(tasks_view(tasks@), idx@.take(k + 1)));
        k = k + 1;
    }
    assert(idx@.take(k as int) =~= idx@);
    r
}

/// The task indices of resolved references.
fn task_indices(refs: &Vec<TaskRef>) -> (r: Vec<usize>)
    ensures
        r@ == refs@.map_values(|t: TaskRef| t.task_index),
{
    let mut r: Vec<usize> = Vec::new();
    let mut k: usize = 0;
    while k < refs.len()
        invariant
            k <= refs.len(),
            r@ == refs@.take(k as int).map_values(|t: TaskRef| t.task_index),
        decreases refs.len() - k,
    {
        r.push(refs[k].task_index);
        assert(refs@.take(k + 1).map_values(|t: TaskRef| t.task_index) =~= refs@.take(
            k as int,
        ).map_values(|t: TaskRef| t.task_index).push(refs@[k as int].task_index));
        k = k + 1;
    }
    assert(refs@.take(k as int) =~= refs@);
    r
}

/// Moves the referenced tasks to the top, in the order first named; a
/// subtask reference moves its parent. The other tasks keep their order.
/// Returns the texts of the moved tasks.
pub fn prioritize_refs(todo: &mut TodoFile, refs: &[String]) -> (r: Result<Vec<String>, TodoError>)
    ensures
        r is Ok <==> all_refs_ok(old(todo)@, strings_view(refs@)),
        r is Err ==> final(todo)@ == old(todo)@ && is_first_ref_error(
            r->Err_0,
            old(todo)@,
            strings_view(refs@),
        ),
        r is Ok ==> {
            let order = dedup_first(ref_tasks(strings_view(refs@)));
            &&& final(todo)@ == (TodoView {
                tasks: gather(old(todo)@.tasks, moved_first(order, old(todo)@.tasks.len())),
                ..old(todo)@
            })
            &&& strings_view(r->Ok_0@) == gather(old(todo)@.tasks, order).map_values(
                |t: TaskView| t.text,
            )
        },
{
    let resolved = match resolve_refs(todo, refs) {
        Ok(v) => v,
        Err(e) => {
            return Err(e);
        },
    };
    let ghost ss = strings_view(refs@);
    let idx = task_indices(&resolved);
    assert(idx@ =~= ref_tasks(ss));
    let order = dedup_indices(&idx);
    let n = todo.tasks.len();
    proof {
        lemma_dedup_within(idx@);
        assert forall|i: int| 0 <= i < order.len() implies #[trigger] order@[i] < n by {
            let k = choose|k: int| 0 <= k < idx@.len() && idx@[k] == order@[i];
            assert(ref_ok(todo@, ss[k]));
        }
        lemma_rest_within(order@, n as nat);
    }
    let all = moved_first_indices(&order, n);
    assert forall|i: int| 0 <= i < all.len() implies #[trigger] all@[i] < n by {
        if i >= order.len() {
            assert(all@[i] == rest_indices(order@, n as nat)[i - order.len()]);
        }
    }
    let moved = gather_tasks(&todo.tasks, &order);
    let mut names: Vec<String> = Vec::new();
    let mut k: usize = 0;
    while k < moved.len()
        invariant
            k <= moved.len(),
            strings_view(names@) == tasks_view(moved@).take(k as int).map_values(
                |t: TaskView| t.text,
            ),
        decreases moved.len() - k,
    {
        let name = moved[k].text.clone();
        let ghost before = names@;
        names.push(name);
        assert(names@ =~= before.push(name));
        assert(strings_view(names@) =~= strings_view(before).push(name@));
        assert(name@ == tasks_view(moved@)[k as int].text);
        assert(strings_view(names@) =~= tasks_view(moved@).take(k + 1).map_values(
            |t: TaskView| t.text,
        ));
        k = k + 1;
    }
    assert(tasks_view(moved@).take(k as int) =~= tasks_view(moved@));
    let new_tasks = gather_tasks(&todo.tasks, &all);
    todo.tasks = new_tasks;
    Ok(names)
}

// ---------------------------------------------------------------- remove

/// Some reference names task `i` as a whole.
pub open spec fn whole(refs: Seq<TaskRef>, i: int) -> bool {
    exists|k: int|
        0 <= k < refs.len() && (#[trigger] refs[k]).task_index == i && refs[k].subtask_index is None
}

/// Some reference names subtask `j` of task `i`.
pub open spec fn picked(refs: Seq<TaskRef>, i: int, j: int) -> bool {
    exists|k: int|
        0 <= k < refs.len() && (#[trigger] refs[k]).task_index == i && refs[k].subtask_index
            == Some(j as usize)
}

/// Task `i` is not removed as a whole, but all of its subtasks are: it is
/// completed along with its last subtask.
pub open spec fn emptied(refs: Seq<TaskRef>, t: TaskView, i: int) -> bool {
    &&& !whole(refs, i)
    &&& t.subtasks.len() > 0
    &&& forall|j: int| 0 <= j < t.subtasks.len() ==> picked(refs, i, j)
}

/// The picked subtasks of task `i` among its first `m`, as standalone tasks.
pub open spec fn picked_subtasks(refs: Seq<TaskRef>, i: int, subs: Seq<Seq<char>>, m: nat) -> Seq<
    TaskView,
>
    decreases m,
{
    if m == 0 {
        seq![]
    } else {
        let r = picked_subtasks(refs, i, subs, (m - 1) as nat);
        if picked(refs, i, m - 1) {
            r.push(task_of(subs[m - 1]))
        } else {
            r
        }
    }
}

/// The subtasks of task `i` among its first `m` that are not picked.
pub open spec fn kept_subtasks(refs: Seq<TaskRef>, i: int, subs: Seq<Seq<char>>, m: nat) -> Seq<
    Seq<char>,
>
    decreases m,
{
    if m == 0 {
        seq![]
    } else {
        let r = kept_subtasks(refs, i, subs, (m - 1) as nat);
        if picked(refs, i, m - 1) {
            r
        } else {
            r.push(subs[m - 1])
        }
    }
}

/// What the references take out of the first `n` tasks, in document order:
/// each whole task with its subtasks, and each picked subtask of another
/// task as a task of its own.
pub open spec fn taken_upto(refs: Seq<TaskRef>, tasks: Seq<TaskView>, n: nat) -> Seq<TaskView>
    decreases n,
{
    if n == 0 {
        seq![]
    } else {
        let i = n - 1;
        let t = tasks[i];
        taken_upto(refs, tasks, (n - 1) as nat) + if whole(refs, i) {
            seq![t]
        } else {
            picked_subtasks(refs, i, t.subtasks, t.subtasks.len())
        }
    }
}

/// The tasks among the first `n` that lose their last subtask, with no
/// subtask left.
pub open spec fn completed_upto(refs: Seq<TaskRef>, tasks: Seq<TaskView>, n: nat) -> Seq<TaskView>
    decreases n,
{
    if n == 0 {
        seq![]
    } else {
        let i = n - 1;
        let r = completed_upto(refs, tasks, (n - 1) as nat);
        if emptied(refs, tasks[i], i) {
            r.push(task_of(tasks[i].text))
        } else {
            r
        }
    }
}

/// The first `n` tasks after the removal: those neither taken whole nor
/// completed, each without its picked subtasks.
pub open spec fn remaining_upto(refs: Seq<TaskRef>, tasks: Seq<TaskView>, n: nat) -> Seq<TaskView>
    decreases n,
{
    if n == 0 {
        seq![]
    } else {
        let i = n - 1;
        let t = tasks[i];
        let r = remaining_upto(refs, tasks, (n - 1) as nat);
        if !whole(refs, i) && !emptied(refs, t, i) {
            r.push(TaskView { subtasks: kept_subtasks(refs, i, t.subtasks, t.subtasks.len()), ..t })
        } else {
            r
        }
    }
}

pub open spec fn resolved(refs: Seq<Seq<char>>) -> Seq<TaskRef> {
    refs.map_values(|s: Seq<char>| ref_of(s))
}

/// What a removal took out of the document.
#[derive(Debug)]
pub struct Removal {
    /// Whole tasks, and picked subtasks as tasks of their own, in document
    /// order.
    pub archived: Vec<Task>,
    /// Tasks completed because their last subtask was taken, in document
    /// order.
    pub auto_completed: Vec<Task>,
}

fn is_whole(refs: &Vec<TaskRef>, i: usize) -> (r: bool)
    ensures
        r == whole(refs@, i as int),
{
    let mut k: usize = 0;
    while k < refs.len()
        invariant
            k <= refs.len(),
            forall|q: int|
                0 <= q < k ==> !((#[trigger] refs@[q]).task_index == i && refs@[q].subtask_index is None),
        decreases refs.len() - k,
    {
        if refs[k].task_index == i && refs[k].subtask_index.is_none() {
            assert(refs@[k as int].task_index == i);
            return true;
        }
        k = k + 1;
    }
    false
}

fn is_picked(refs: &Vec<TaskRef>, i: usize, j: usize) -> (r: bool)
    ensures
        r == picked(refs@, i as int, j as int),
{
    let mut k: usize = 0;
    while k < refs.len()
        invariant
            k <= refs.len(),
            forall|q: int|
                0 <= q < k ==> !((#[trigger] refs@[q]).task_index == i && refs@[q].subtask_index
                    == Some(j)),
        decreases refs.len() - k,
    {
        let hit = match refs[k].subtask_index {
            Some(x) => x == j,
            None => false,
        };
        if refs[k].task_index == i && hit {
            assert(refs@[k as int].task_index == i);
            return true;
        }
        k = k + 1;
    }
    false
}

/// Removes the referenced tasks and subtasks. A task whose subtasks are all
/// removed is completed with them and removed too. Returns what was taken,
/// for the archive.
pub fn remove_items(todo: &mut TodoFile, refs: &[String]) -> (r: Result<Removal, TodoError>)
    ensures
        r is Ok <==> all_refs_ok(old(todo)@, strings_view(refs@)),
        r is Err ==> final(todo)@ == old(todo)@ && is_first_ref_error(
            r->Err_0,
            old(todo)@,
            strings_view(refs@),
        ),
        r is Ok ==> {
            let rs = resolved(strings_view(refs@));
            let tasks = old(todo)@.tasks;
            &&& final(todo)@ == (TodoView {
                tasks: remaining_upto(rs, tasks, tasks.len()),
                ..old(todo)@
            })
            &&& tasks_view(r->Ok_0.archived@) == taken_upto(rs, tasks, tasks.len())
            &&& tasks_view(r->Ok_0.auto_completed@) == completed_upto(rs, tasks, tasks.len())
        },
{
    let rs = match resolve_refs(todo, refs) {
        Ok(v) => v,
        Err(e) => {
            return Err(e);
        },
    };
    let ghost tasks = todo@.tasks;
    let mut archived: Vec<Task> = Vec::new();
    let mut completed: Vec<Task> = Vec::new();
    let mut remaining: Vec<Task> = Vec::new();
    let n = todo.tasks.len();
    let mut i: usize = 0;
    while i < n
        invariant
            i <= n == todo.tasks.len(),
            tasks == todo@.tasks,
            tasks_view(archived@) == taken_upto(rs@, tasks, i as nat),
            tasks_view(completed@) == completed_upto(rs@, tasks, i as nat),
            tasks_view(remaining@) == remaining_upto(rs@, tasks, i as nat),
        decreases n - i,
    {
        let task = &todo.tasks[i];
        let ghost t = tasks[i as int];
        assert(t == task@);
        if is_whole(&rs, i) {
            let c = task.copy();
            let ghost before = archived@;
            archived.push(c);
            assert(archived@ =~= before.push(c));
            assert(tasks_view(archived@) =~= tasks_view(before).push(t));
            assert(tasks_view(archived@) =~= taken_upto(rs@, tasks, (i + 1) as nat));
        } else {
            let m = task.subtasks.len();
            let ghost arch0 = tasks_view(archived@);
            let mut kept: Vec<String> = Vec::new();
            let mut all_picked = true;
            let mut j: usize = 0;
            while j < m
                invariant
                    j <= m == task.subtasks.len(),
                    t == task@,
                    arch0 == taken_upto(rs@, tasks, i as nat),
                    tasks_view(archived@) == arch0 + picked_subtasks(rs@, i as int, t.subtasks, j as nat),
                    strings_view(kept@) == kept_subtasks(rs@, i as int, t.subtasks, j as nat),
                    all_picked == forall|q: int| 0 <= q < j ==> picked(rs@, i as int, q),
                decreases m - j,
            {
                let sub = task.subtasks[j].clone();
                assert(sub@ == t.subtasks[j as int]);
                if is_picked(&rs, i, j) {
                    let st = Task::new(sub);
                    let ghost before = archived@;
                    archived.push(st);
                    assert(archived@ =~= before.push(st));
                    assert(tasks_view(archived@) =~= tasks_view(before).push(st@));
                    assert(tasks_view(archived@) =~= arch0 + picked_subtasks(
                        rs@,
                        i as int,
                        t.subtasks,
                        (j + 1) as nat,
                    ));
                } else {
                    let ghost before = kept@;
                    kept.push(sub);
                    assert(kept@ =~= before.push(sub));
                    assert(strings_view(kept@) =~= strings_view(before).push(sub@));
                    all_picked = false;
                }
                j = j + 1;
            }
            assert(tasks_view(archived@) =~= taken_upto(rs@, tasks, (i + 1) as nat));
            if m > 0 && all_picked {
                let done = Task::new(task.text.clone());
                let ghost before = completed@;
                completed.push(done);
                assert(completed@ =~= before.push(done));
                assert(tasks_view(completed@) =~= tasks_view(before).push(done@));
            } else {
                let rest = Task { text: task.text.clone(), subtasks: kept };
                let ghost before = remaining@;
                remaining.push(rest);
                assert(remaining@ =~= before.push(rest));
                assert(tasks_view(remaining@) =~= tasks_view(before).push(rest@));
            }
        }
        i = i + 1;
    }
    todo.tasks = remaining;
    Ok(Removal { archived, auto_completed: completed })
}

// ---------------------------------------------------------------- archive

/// What an archiving adds: the taken items, then the completed tasks.
pub open spec fn archived_items(refs: Seq<TaskRef>, tasks: Seq<TaskView>) -> Seq<TaskView> {
    taken_upto(refs, tasks, tasks.len()) + completed_upto(refs, tasks, tasks.len())
}

/// Removes the referenced items as `remove_items` does, and files what was
/// taken in the default list of the archive entry for `date`.
pub fn archive_items_on(
    todo: &mut TodoFile,
    archive: &mut ArchiveFile,
    refs: &[String],
    date: &str,
) -> (r: Result<Removal, TodoError>)
    ensures
        r is Ok <==> all_refs_ok(old(todo)@, strings_view(refs@)),
        old(archive)@.wf() ==> final(archive)@.wf(),
        r is Err ==> final(todo)@ == old(todo)@ && final(archive)@ == old(archive)@
            && is_first_ref_error(r->Err_0, old(todo)@, strings_view(refs@)),
        r is Ok ==> {
            let rs = resolved(strings_view(refs@));
            let tasks = old(todo)@.tasks;
            let items = archived_items(rs, tasks);
            &&& final(todo)@ == (TodoView {
                tasks: remaining_upto(rs, tasks, tasks.len()),
                ..old(todo)@
            })
            &&& tasks_view(r->Ok_0.archived@) == taken_upto(rs, tasks, tasks.len())
            &&& tasks_view(r->Ok_0.auto_completed@) == completed_upto(rs, tasks, tasks.len())
            &&& items.len() == 0 ==> final(archive)@ == old(archive)@
            &&& items.len() > 0 ==> final(archive)@ == with_items(
                old(archive)@,
                date@,
                default_list(),
                items,
            )
        },
{
    let removal = match remove_items(todo, refs) {
        Ok(x) => x,
        Err(e) => {
            return Err(e);
        },
    };
    let mut items: Vec<Task> = Vec::new();
    assert(tasks_view(items@) =~= Seq::<TaskView>::empty());
    let copies = copy_tasks(&removal.archived);
    extend_tasks(&mut items, copies);
    let copies = copy_tasks(&removal.auto_completed);
    extend_tasks(&mut items, copies);
    if items.len() > 0 {
        let name = default_list_name();
        archive.add_items_for_date(date, name.as_str(), items);
    }
    Ok(removal)
}

/// `archive_items_on` with today's date.
pub fn archive_items(todo: &mut TodoFile, archive: &mut ArchiveFile, refs: &[String]) -> (r: Result<
    Removal,
    TodoError,
>)
    ensures
        r is Ok <==> all_refs_ok(old(todo)@, strings_view(refs@)),
        old(archive)@.wf() ==> final(archive)@.wf(),
        r is Err ==> final(todo)@ == old(todo)@ && final(archive)@ == old(archive)@
            && is_first_ref_error(r->Err_0, old(todo)@, strings_view(refs@)),
        r is Ok ==> {
            let rs = resolved(strings_view(refs@));
            let tasks = old(todo)@.tasks;
            let items = archived_items(rs, tasks);
            &&& final(todo)@ == (TodoView {
                tasks: remaining_upto(rs, tasks, tasks.len()),
                ..old(todo)@
            })
            &&& items.len() == 0 ==> final(archive)@ == old(archive)@
            &&& items.len() > 0 ==> exists|date: Seq<char>|
                final(archive)@ == with_items(old(archive)@, date, default_list(), items)
        },
{
    let date = crate::archive::today();
    archive_items_on(todo, archive, refs, date.as_str())
}

} // verus!
