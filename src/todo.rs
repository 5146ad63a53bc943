//! The todo document's text form: a forgiving line-by-line parser and the
//! generator of the canonical form.

use vstd::prelude::*;
use vstd::string::StringExecFns;
use crate::model::{Task, TaskView, TodoFile, TodoView, task_of, tasks_view};
use crate::text::{
    chars_of, join_lines, lemma_join_lines_push, lines_of, next_line, push_char, string_of,
    trim, trim_end, trim_end_len, trim_range, trim_start,
};

verus! {

/// The title a document has until a title line says otherwise.
pub open spec fn default_title() -> Seq<char> {
    seq!['T', 'O', 'D', 'O', 's']
}

pub fn default_title_string() -> (r: String)
    ensures
        r@ == default_title(),
{
    let mut title = String::new();
    push_char(&mut title, 'T');
    push_char(&mut title, 'O');
    push_char(&mut title, 'D');
    push_char(&mut title, 'O');
    push_char(&mut title, 's');
    assert(title@ =~= default_title());
    title
}

/// A bullet: `-`, `*` or `+`, then a space.
pub open spec fn is_bullet(t: Seq<char>) -> bool {
    t.len() >= 2 && (t[0] == '-' || t[0] == '*' || t[0] == '+') && t[1] == ' '
}

/// Five leading spaces, or two leading tabs.
pub open spec fn deep_indent(l: Seq<char>) -> bool {
    ||| (l.len() >= 5 && l[0] == ' ' && l[1] == ' ' && l[2] == ' ' && l[3] == ' ' && l[4] == ' ')
    ||| (l.len() >= 2 && l[0] == '\t' && l[1] == '\t')
}

/// The length of the subtask marker that opens `l` (`"  - "`, `"   - "`,
/// `"    - "` or `"\t- "`), or 0 where there is none.
pub open spec fn sub_marker(l: Seq<char>) -> nat {
    if l.len() >= 4 && l[0] == ' ' && l[1] == ' ' && l[2] == '-' && l[3] == ' ' {
        4
    } else if l.len() >= 5 && l[0] == ' ' && l[1] == ' ' && l[2] == ' ' && l[3] == '-' && l[4]
        == ' ' {
        5
    } else if l.len() >= 6 && l[0] == ' ' && l[1] == ' ' && l[2] == ' ' && l[3] == ' ' && l[4]
        == '-' && l[5] == ' ' {
        6
    } else if l.len() >= 3 && l[0] == '\t' && l[1] == '-' && l[2] == ' ' {
        3
    } else {
        0
    }
}

/// Three backticks in a row from position `i` on.
pub open spec fn fence_at(t: Seq<char>, i: int) -> bool {
    0 <= i && i + 3 <= t.len() && t[i] == '`' && t[i + 1] == '`' && t[i + 2] == '`'
}

/// Whether `t` holds a code fence.
pub open spec fn has_fence(t: Seq<char>) -> bool {
    exists|i: int| fence_at(t, i)
}

/// What one line of a todo document says.
pub enum LineKind {
    Blank,
    Title(Seq<char>),
    ListHeader,
    /// A bullet indented deeper than one level, taken as a subtask.
    Nested(Seq<char>),
    Subtask(Seq<char>),
    Task(Seq<char>),
    Ignored,
}

/// The rules in the order they apply: title, list header, deep nesting,
/// subtask, bulleted task, then any other text as a bare task, except
/// comments, HTML and code fences.
pub open spec fn classify(l: Seq<char>) -> LineKind {
    let t = trim(l);
    if t.len() == 0 {
        LineKind::Blank
    } else if t[0] == '#' {
        if t.len() >= 2 && t[1] == '#' {
            LineKind::ListHeader
        } else {
            LineKind::Title(trim(t.drop_first()))
        }
    } else if deep_indent(l) && is_bullet(trim_start(l)) {
        LineKind::Nested(trim(trim_start(l).skip(2)))
    } else if sub_marker(l) > 0 {
        LineKind::Subtask(trim(l.skip(sub_marker(l) as int)))
    } else if is_bullet(t) {
        LineKind::Task(trim(t.skip(2)))
    } else if t[0] != '<' && !has_fence(t) {
        LineKind::Task(t)
    } else {
        LineKind::Ignored
    }
}

/// The parser's state between two lines.
pub struct ParseState {
    pub title: Seq<char>,
    pub tasks: Seq<TaskView>,
    pub current: Option<TaskView>,
}

pub open spec fn initial_state() -> ParseState {
    ParseState { title: default_title(), tasks: seq![], current: None }
}

/// The finished tasks, with the open one closed.
pub open spec fn flushed(st: ParseState) -> Seq<TaskView> {
    match st.current {
        Some(t) => st.tasks.push(t),
        None => st.tasks,
    }
}

/// A subtask joins the open task; with none open it opens one.
pub open spec fn attach(st: ParseState, x: Seq<char>) -> ParseState {
    match st.current {
        Some(t) => ParseState {
            current: Some(TaskView { subtasks: t.subtasks.push(x), ..t }),
            ..st
        },
        None => ParseState { current: Some(task_of(x)), ..st },
    }
}

/// A task closes the open one and opens itself.
pub open spec fn open_task(st: ParseState, x: Seq<char>) -> ParseState {
    ParseState { tasks: flushed(st), current: Some(task_of(x)), ..st }
}

pub open spec fn step(st: ParseState, l: Seq<char>) -> ParseState {
    match classify(l) {
        LineKind::Title(x) => ParseState { title: x, ..st },
        LineKind::Nested(x) => attach(st, x),
        LineKind::Subtask(x) => attach(st, x),
        LineKind::Task(x) => open_task(st, x),
        _ => st,
    }
}

pub open spec fn run(lines: Seq<Seq<char>>, st: ParseState) -> ParseState
    decreases lines.len(),
{
    if lines.len() == 0 {
        st
    } else {
        run(lines.drop_first(), step(st, lines[0]))
    }
}

/// The document that a text denotes.
pub open spec fn parse_todo(s: Seq<char>) -> TodoView {
    let st = run(lines_of(s), initial_state());
    TodoView { title: st.title, tasks: flushed(st) }
}

pub open spec fn is_nested(l: Seq<char>) -> bool {
    classify(l) is Nested
}

pub open spec fn shift(o: Option<nat>, k: nat) -> Option<nat> {
    match o {
        Some(i) => Some(i + k),
        None => None,
    }
}

/// The index of the first deeply nested line.
pub open spec fn first_nested(lines: Seq<Seq<char>>) -> Option<nat>
    decreases lines.len(),
{
    if lines.len() == 0 {
        None
    } else if is_nested(lines[0]) {
        Some(0)
    } else {
        shift(first_nested(lines.drop_first()), 1)
    }
}

/// The 1-based number of the first deeply nested line of a text.
pub open spec fn nested_warning_line(s: Seq<char>) -> Option<usize> {
    match first_nested(lines_of(s)) {
        Some(i) => Some((i + 1) as usize),
        None => None,
    }
}

/// What `classify_line` found, with the text that goes with it.
#[derive(Clone, Copy, PartialEq, Eq, Structural)]
enum LineClass {
    Blank,
    Title,
    ListHeader,
    Nested,
    Subtask,
    Task,
    Ignored,
}

spec fn kind_of(c: LineClass, x: Seq<char>) -> LineKind {
    match c {
        LineClass::Blank => LineKind::Blank,
        LineClass::Title => LineKind::Title(x),
        LineClass::ListHeader => LineKind::ListHeader,
        LineClass::Nested => LineKind::Nested(x),
        LineClass::Subtask => LineKind::Subtask(x),
        LineClass::Task => LineKind::Task(x),
        LineClass::Ignored => LineKind::Ignored,
    }
}

fn range_has_fence(v: &Vec<char>, a: usize, b: usize) -> (r: bool)
    requires
        a <= b <= v.len(),
    ensures
        r == has_fence(v@.subrange(a as int, b as int)),
{
    let ghost t = v@.subrange(a as int, b as int);
    let mut i = a;
    while b - i >= 3
        invariant
            a <= i <= b <= v.len(),
            t == v@.subrange(a as int, b as int),
            forall|k: int| 0 <= k < i - a ==> !fence_at(t, k),
        decreases b - i,
    {
        if v[i] == '`' && v[i + 1] == '`' && v[i + 2] == '`' {
            assert(fence_at(t, i - a));
            return true;
        }
        i = i + 1;
    }
    false
}

/// Classifies the line `v[lo..hi]`; the text that goes with the class is
/// `v[r.1..r.2]`.
fn classify_line(v: &Vec<char>, lo: usize, hi: usize) -> (r: (LineClass, usize, usize))
    requires
        lo <= hi <= v.len(),
    ensures
        r.1 <= r.2 <= v.len(),
        classify(v@.subrange(lo as int, hi as int)) == kind_of(
            r.0,
            v@.subrange(r.1 as int, r.2 as int),
        ),
{
    let ghost l = v@.subrange(lo as int, hi as int);
    let (a, b) = trim_range(v, lo, hi);
    let ghost t = v@.subrange(a as int, b as int);
    if a == b {
        return (LineClass::Blank, a, b);
    }
    if v[a] == '#' {
        if b - a >= 2 && v[a + 1] == '#' {
            return (LineClass::ListHeader, a, b);
        }
        assert(t.drop_first() =~= v@.subrange(a + 1, b as int));
        let (x, y) = trim_range(v, a + 1, b);
        return (LineClass::Title, x, y);
    }
    let n = hi - lo;
    let deep = (n >= 5 && v[lo] == ' ' && v[lo + 1] == ' ' && v[lo + 2] == ' ' && v[lo + 3] == ' '
        && v[lo + 4] == ' ') || (n >= 2 && v[lo] == '\t' && v[lo + 1] == '\t');
    // trim_start(l) is v[a..hi].
    let bullet_start = hi - a >= 2 && (v[a] == '-' || v[a] == '*' || v[a] == '+') && v[a + 1]
        == ' ';
    if deep && bullet_start {
        assert(v@.subrange(a as int, hi as int).skip(2) =~= v@.subrange(a + 2, hi as int));
        let (x, y) = trim_range(v, a + 2, hi);
        return (LineClass::Nested, x, y);
    }
    let marker: usize = if n >= 4 && v[lo] == ' ' && v[lo + 1] == ' ' && v[lo + 2] == '-' && v[lo
        + 3] == ' ' {
        4
    } else if n >= 5 && v[lo] == ' ' && v[lo + 1] == ' ' && v[lo + 2] == ' ' && v[lo + 3] == '-'
        && v[lo + 4] == ' ' {
        5
    } else if n >= 6 && v[lo] == ' ' && v[lo + 1] == ' ' && v[lo + 2] == ' ' && v[lo + 3] == ' '
        && v[lo + 4] == '-' && v[lo + 5] == ' ' {
        6
    } else if n >= 3 && v[lo] == '\t' && v[lo + 1] == '-' && v[lo + 2] == ' ' {
        3
    } else {
        0
    };
    assert(marker == sub_marker(l));
    if marker > 0 {
        assert(l.skip(marker as int) =~= v@.subrange(lo + marker, hi as int));
        let (x, y) = trim_range(v, lo + marker, hi);
        return (LineClass::Subtask, x, y);
    }
    if b - a >= 2 && (v[a] == '-' || v[a] == '*' || v[a] == '+') && v[a + 1] == ' ' {
        assert(t.skip(2) =~= v@.subrange(a + 2, b as int));
        let (x, y) = trim_range(v, a + 2, b);
        return (LineClass::Task, x, y);
    }
    if v[a] != '<' && !range_has_fence(v, a, b) {
        return (LineClass::Task, a, b);
    }
    (LineClass::Ignored, a, b)
}

spec fn opt_view(o: Option<Task>) -> Option<TaskView> {
    match o {
        Some(t) => Some(t@),
        None => None,
    }
}

spec fn state_view(title: String, tasks: Seq<Task>, current: Option<Task>) -> ParseState {
    ParseState { title: title@, tasks: tasks_view(tasks), current: opt_view(current) }
}

proof fn lemma_run_one(l: Seq<char>, rest: Seq<Seq<char>>, st: ParseState)
    ensures
        run(seq![l] + rest, st) == run(rest, step(st, l)),
{
    assert((seq![l] + rest).drop_first() =~= rest);
}

/// Parses a todo document, and reports the 1-based number of the first line
/// that nests deeper than one level, if any.
pub fn parse_todo_file_with_warning(content: &str) -> (r: (TodoFile, Option<usize>))
    ensures
        r.0@ == parse_todo(content@),
        r.1 == nested_warning_line(content@),
{
    let v = chars_of(content);
    let n = v.len();
    let ghost s = content@;
    let mut title = default_title_string();
    let mut tasks: Vec<Task> = Vec::new();
    let mut current: Option<Task> = None;
    let mut warning: Option<usize> = None;
    let mut count: usize = 0;
    let mut pos: usize = 0;
    assert(s.skip(0) =~= s);
    assert(tasks_view(tasks@) =~= Seq::<TaskView>::empty());
    while pos < n
        invariant
            pos <= n == v.len(),
            v@ == s,
            count <= pos,
            run(lines_of(s.skip(pos as int)), state_view(title, tasks@, current)) == run(
                lines_of(s),
                initial_state(),
            ),
            warning is None ==> first_nested(lines_of(s)) == shift(
                first_nested(lines_of(s.skip(pos as int))),
                count as nat,
            ),
            warning is Some ==> first_nested(lines_of(s)) == Some(
                (warning->Some_0 - 1) as nat,
            ) && warning->Some_0 >= 1,
        decreases n - pos,
    {
        let (le, next) = next_line(&v, pos);
        let ghost line = v@.subrange(pos as int, le as int);
        let (class, x, y) = classify_line(&v, pos, le);
        let ghost st0 = state_view(title, tasks@, current);
        proof {
            lemma_run_one(line, lines_of(s.skip(next as int)), st0);
        }
        match class {
            LineClass::Title => {
                title = string_of(&v, x, y);
            },
            LineClass::Nested | LineClass::Subtask => {
                let text = string_of(&v, x, y);
                match current.take() {
                    Some(mut t) => {
                        t.add_subtask(text);
                        current = Some(t);
                    },
                    None => {
                        current = Some(Task::new(text));
                    },
                }
            },
            LineClass::Task => {
                let text = string_of(&v, x, y);
                match current.take() {
                    Some(t) => {
                        tasks.push(t);
                        assert(tasks_view(tasks@) =~= flushed(st0));
                    },
                    None => {},
                }
                current = Some(Task::new(text));
            },
            _ => {},
        }
        assert(state_view(title, tasks@, current) == step(st0, line));
        if warning.is_none() && class == LineClass::Nested {
            warning = Some(count + 1);
        }
        proof {
            let rest = lines_of(s.skip(next as int));
            assert((seq![line] + rest).drop_first() =~= rest);
            assert((seq![line] + rest)[0] == line);
        }
        count = count + 1;
        pos = next;
    }
    assert(s.skip(n as int) =~= Seq::<char>::empty());
    match current {
        Some(t) => {
            tasks.push(t);
        },
        None => {},
    }
    let doc = TodoFile { title, tasks };
    assert(doc@.tasks =~= flushed(run(lines_of(s), initial_state())));
    (doc, warning)
}

/// Parses a todo document. Parsing never fails: lines that match no rule
/// are skipped or read as bare tasks.
pub fn parse_todo_file(content: &str) -> (r: Result<TodoFile, String>)
    ensures
        r is Ok,
        r->Ok_0@ == parse_todo(content@),
{
    let (doc, _) = parse_todo_file_with_warning(content);
    Ok(doc)
}

pub open spec fn task_line(x: Seq<char>) -> Seq<char> {
    seq!['-', ' '] + x
}

pub open spec fn subtask_line(x: Seq<char>) -> Seq<char> {
    seq![' ', ' ', '-', ' '] + x
}

pub open spec fn subtask_lines(subs: Seq<Seq<char>>) -> Seq<Seq<char>> {
    subs.map_values(|x: Seq<char>| subtask_line(x))
}

/// A task's lines: `- text`, then `  - subtask` for each subtask.
pub open spec fn task_lines(t: TaskView) -> Seq<Seq<char>> {
    seq![task_line(t.text)] + subtask_lines(t.subtasks)
}

pub open spec fn body_lines(tasks: Seq<TaskView>) -> Seq<Seq<char>>
    decreases tasks.len(),
{
    if tasks.len() == 0 {
        seq![]
    } else {
        body_lines(tasks.drop_last()) + task_lines(tasks.last())
    }
}

pub open spec fn title_line(title: Seq<char>) -> Seq<char> {
    seq!['#', ' '] + title
}

/// The header `# title`, a blank line, then each task's lines.
pub open spec fn doc_lines(doc: TodoView) -> Seq<Seq<char>> {
    seq![title_line(doc.title), seq![]] + body_lines(doc.tasks)
}

/// The canonical text of a document: its lines, with trailing white space
/// cut and one line break put back.
pub open spec fn generate_todo(doc: TodoView) -> Seq<char> {
    trim_end(join_lines(doc_lines(doc))).push('\n')
}

fn push_line_end(content: &mut String, ls: Ghost<Seq<Seq<char>>>, l: Ghost<Seq<char>>)
    requires
        old(content)@ == join_lines(ls@) + l@,
    ensures
        final(content)@ == join_lines(ls@.push(l@)),
{
    push_char(content, '\n');
    proof {
        lemma_join_lines_push(ls@, l@);
    }
}

/// Writes a document in canonical form.
pub fn generate_todo_file(todo_file: &TodoFile) -> (r: String)
    ensures
        r@ == generate_todo(todo_file@),
{
    let ghost doc = todo_file@;
    let mut content = String::new();
    push_char(&mut content, '#');
    push_char(&mut content, ' ');
    content.append(todo_file.title.as_str());
    let ghost no_lines: Seq<Seq<char>> = seq![];
    let ghost empty_line: Seq<char> = seq![];
    let ghost head = title_line(doc.title);
    let ghost first = no_lines.push(head);
    assert(content@ =~= join_lines(no_lines) + head);
    push_line_end(&mut content, Ghost(no_lines), Ghost(head));
    assert(content@ =~= join_lines(first) + empty_line);
    push_line_end(&mut content, Ghost(first), Ghost(empty_line));
    assert(first.push(empty_line) =~= seq![title_line(doc.title), seq![]] + body_lines(
        doc.tasks.take(0),
    ));
    let mut i: usize = 0;
    while i < todo_file.tasks.len()
        invariant
            i <= todo_file.tasks.len(),
            doc == todo_file@,
            content@ == join_lines(
                seq![title_line(doc.title), seq![]] + body_lines(doc.tasks.take(i as int)),
            ),
        decreases todo_file.tasks.len() - i,
    {
        let task = &todo_file.tasks[i];
        let ghost tv = doc.tasks[i as int];
        assert(tv == task@);
        let ghost before = seq![title_line(doc.title), seq![]] + body_lines(doc.tasks.take(i as int));
        push_char(&mut content, '-');
        push_char(&mut content, ' ');
        content.append(task.text.as_str());
        assert(content@ =~= join_lines(before) + task_line(tv.text));
        push_line_end(&mut content, Ghost(before), Ghost(task_line(tv.text)));
        assert(before.push(task_line(tv.text)) =~= before + seq![task_line(tv.text)]
            + subtask_lines(tv.subtasks.take(0)));
        let mut j: usize = 0;
        while j < task.subtasks.len()
            invariant
                j <= task.subtasks.len(),
                tv == task@,
                content@ == join_lines(
                    before + seq![task_line(tv.text)] + subtask_lines(tv.subtasks.take(j as int)),
                ),
            decreases task.subtasks.len() - j,
        {
            let ghost ls = before + seq![task_line(tv.text)] + subtask_lines(tv.subtasks.take(j as int));
            let ghost x = tv.subtasks[j as int];
            push_char(&mut content, ' ');
            push_char(&mut content, ' ');
            push_char(&mut content, '-');
            push_char(&mut content, ' ');
            content.append(task.subtasks[j].as_str());
            assert(content@ =~= join_lines(ls) + subtask_line(x));
            push_line_end(&mut content, Ghost(ls), Ghost(subtask_line(x)));
            assert(ls.push(subtask_line(x)) =~= before + seq![task_line(tv.text)] + subtask_lines(
                tv.subtasks.take(j + 1),
            ));
            j = j + 1;
        }
        assert(tv.subtasks.take(j as int) =~= tv.subtasks);
        assert(doc.tasks.take(i + 1).drop_last() =~= doc.tasks.take(i as int));
        assert(before + seq![task_line(tv.text)] + subtask_lines(tv.subtasks) =~= seq![
            title_line(doc.title),
            seq![],
        ] + body_lines(doc.tasks.take(i + 1)));
        i = i + 1;
    }
    assert(doc.tasks.take(i as int) =~= doc.tasks);
    let v = chars_of(content.as_str());
    let b = trim_end_len(&v, v.len());
    assert(v@.subrange(0, v.len() as int) =~= v@);
    let mut r = string_of(&v, 0, b);
    push_char(&mut r, '\n');
    r
}

} // verus!
