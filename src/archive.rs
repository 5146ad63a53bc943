//! The archive document: dated entries, newest first, each holding named
//! lists of completed tasks; its strict parser, its generator, and the merge
//! of newly archived items into an entry.

use vstd::prelude::*;
use vstd::string::StringExecFns;
use crate::model::{
    ArchiveEntry, ArchiveFile, ArchiveView, EntryView, ListView, NamedList, Task, TaskView,
    lists_distinct, task_of, tasks_view,
};
use crate::text::{
    chars_of, decimal, decimal_string, lines_of, next_line, push_char, string_of,
    trim, trim_end, trim_end_len, trim_range,
};

verus! {

pub open spec fn archive_title() -> Seq<char> {
    seq!['A', 'r', 'c', 'h', 'i', 'v', 'e']
}

/// The name of the list that needs no header.
pub open spec fn default_list() -> Seq<char> {
    seq!['D', 'e', 'f', 'a', 'u', 'l', 't']
}

/// `i` is the first entry dated `date`.
pub open spec fn is_first_entry(entries: Seq<EntryView>, date: Seq<char>, i: int) -> bool {
    &&& 0 <= i < entries.len()
    &&& entries[i].date == date
    &&& forall|k: int| 0 <= k < i ==> (#[trigger] entries[k]).date != date
}

/// `i` is the first list named `name`.
pub open spec fn is_first_list(lists: Seq<ListView>, name: Seq<char>, i: int) -> bool {
    &&& 0 <= i < lists.len()
    &&& lists[i].name == name
    &&& forall|k: int| 0 <= k < i ==> (#[trigger] lists[k]).name != name
}

/// The lists with `tasks` added at the end of the list `name`, which is
/// opened at the end where there is none.
pub open spec fn add_to_lists(lists: Seq<ListView>, name: Seq<char>, tasks: Seq<TaskView>) -> Seq<
    ListView,
> {
    if exists|i: int| is_first_list(lists, name, i) {
        let i = choose|i: int| is_first_list(lists, name, i);
        lists.update(i, ListView { tasks: lists[i].tasks + tasks, ..lists[i] })
    } else {
        lists.push(ListView { name, tasks })
    }
}

/// The archive with `tasks` added to list `name` of the entry dated `date`;
/// where there is no such entry, a new one is put in front.
pub open spec fn with_items(
    a: ArchiveView,
    date: Seq<char>,
    name: Seq<char>,
    tasks: Seq<TaskView>,
) -> ArchiveView {
    if exists|i: int| is_first_entry(a.entries, date, i) {
        let i = choose|i: int| is_first_entry(a.entries, date, i);
        let e = a.entries[i];
        ArchiveView {
            entries: a.entries.update(i, EntryView { lists: add_to_lists(e.lists, name, tasks), ..e }),
            ..a
        }
    } else {
        ArchiveView {
            entries: seq![EntryView { date, lists: seq![ListView { name, tasks }] }] + a.entries,
            ..a
        }
    }
}

proof fn lemma_first_list_exists(lists: Seq<ListView>, name: Seq<char>, k: int)
    requires
        0 <= k < lists.len(),
        lists[k].name == name,
    ensures
        exists|i: int| is_first_list(lists, name, i),
    decreases k,
{
    if exists|j: int| 0 <= j < k && lists[j].name == name {
        let j = choose|j: int| 0 <= j < k && lists[j].name == name;
        lemma_first_list_exists(lists, name, j);
    } else {
        assert(is_first_list(lists, name, k));
    }
}

/// Adding to a list keeps the names of an entry's lists distinct.
pub proof fn lemma_add_to_lists_distinct(lists: Seq<ListView>, name: Seq<char>, tasks: Seq<TaskView>)
    requires
        lists_distinct(lists),
    ensures
        lists_distinct(add_to_lists(lists, name, tasks)),
{
    let r = add_to_lists(lists, name, tasks);
    if exists|i: int| is_first_list(lists, name, i) {
        assert forall|i: int, j: int|
            0 <= i < r.len() && 0 <= j < r.len() && i != j implies r[i].name != r[j].name by {
            assert(r[i].name == lists[i].name);
            assert(r[j].name == lists[j].name);
        }
    } else {
        assert forall|k: int| 0 <= k < lists.len() implies lists[k].name != name by {
            if lists[k].name == name {
                lemma_first_list_exists(lists, name, k);
            }
        }
        assert forall|i: int, j: int|
            0 <= i < r.len() && 0 <= j < r.len() && i != j implies r[i].name != r[j].name by {
            if i < lists.len() && j < lists.len() {
                assert(r[i] == lists[i] && r[j] == lists[j]);
            }
        }
    }
}

/// Adding items keeps an archive well formed.
pub proof fn lemma_with_items_wf(a: ArchiveView, date: Seq<char>, name: Seq<char>, tasks: Seq<TaskView>)
    requires
        a.wf(),
    ensures
        with_items(a, date, name, tasks).wf(),
{
    let r = with_items(a, date, name, tasks);
    if exists|i: int| is_first_entry(a.entries, date, i) {
        let i = choose|i: int| is_first_entry(a.entries, date, i);
        lemma_add_to_lists_distinct(a.entries[i].lists, name, tasks);
        assert forall|k: int| 0 <= k < r.entries.len() implies lists_distinct(
            #[trigger] r.entries[k].lists,
        ) by {
            if k != i {
                assert(r.entries[k] == a.entries[k]);
            }
        }
    } else {
        let e = EntryView { date, lists: seq![ListView { name, tasks }] };
        assert(lists_distinct(e.lists));
        assert forall|k: int| 0 <= k < r.entries.len() implies lists_distinct(
            #[trigger] r.entries[k].lists,
        ) by {
            if k > 0 {
                assert(r.entries[k] == a.entries[k - 1]);
            }
        }
    }
}

/// Relies on chrono's `Local::now` and `format("%Y-%m-%d")`: today's date in
/// the local time zone. Nothing is stated of its value, which depends on the
/// clock.
#[verifier::external_body]
pub(crate) fn today() -> (r: String) {
    chrono::Local::now().format("%Y-%m-%d").to_string()
}

pub(crate) fn default_list_name() -> (r: String)
    ensures
        r@ == default_list(),
{
    let mut r = String::new();
    push_char(&mut r, 'D');
    push_char(&mut r, 'e');
    push_char(&mut r, 'f');
    push_char(&mut r, 'a');
    push_char(&mut r, 'u');
    push_char(&mut r, 'l');
    push_char(&mut r, 't');
    r
}

/// Moves the tasks of `extra` to the end of `tasks`.
pub(crate) fn extend_tasks(tasks: &mut Vec<Task>, extra: Vec<Task>)
    ensures
        tasks_view(final(tasks)@) == tasks_view(old(tasks)@) + tasks_view(extra@),
{
    let ghost start = tasks_view(tasks@);
    let mut k: usize = 0;
    while k < extra.len()
        invariant
            k <= extra.len(),
            tasks_view(tasks@) == start + tasks_view(extra@).take(k as int),
        decreases extra.len() - k,
    {
        let t = extra[k].copy();
        let ghost before = tasks@;
        tasks.push(t);
        assert(tasks@ =~= before.push(t));
        assert(tasks_view(tasks@) =~= tasks_view(before).push(t@));
        assert(tasks_view(extra@).take(k + 1) =~= tasks_view(extra@).take(k as int).push(t@));
        assert(tasks_view(tasks@) =~= start + tasks_view(extra@).take(k + 1));
        k = k + 1;
    }
    assert(tasks_view(extra@).take(k as int) =~= tasks_view(extra@));
}

/// Adds `tasks` to the list `name` of `lists`.
fn add_to_named_list(lists: &mut Vec<NamedList>, name: &String, tasks: Vec<Task>)
    ensures
        final(lists)@.map_values(|l: NamedList| l@) == add_to_lists(
            old(lists)@.map_values(|l: NamedList| l@),
            name@,
            tasks_view(tasks@),
        ),
{
    let ghost lv = lists@.map_values(|l: NamedList| l@);
    let mut i: usize = 0;
    while i < lists.len()
        invariant
            i <= lists.len(),
            lv == lists@.map_values(|l: NamedList| l@),
            lists@ == old(lists)@,
            forall|k: int| 0 <= k < i ==> (#[trigger] lv[k]).name != name@,
        decreases lists.len() - i,
    {
        if lists[i].name == *name {
            assert(is_first_list(lv, name@, i as int));
            assert(forall|j: int| is_first_list(lv, name@, j) ==> j == i);
            let mut list = lists.remove(i);
            extend_tasks(&mut list.tasks, tasks);
            lists.insert(i, list);
            assert(lists@.map_values(|l: NamedList| l@) =~= add_to_lists(lv, name@, tasks_view(tasks@)));
            return;
        }
        assert(lv[i as int].name != name@);
        i = i + 1;
    }
    let list = NamedList { name: name.clone(), tasks };
    lists.push(list);
    assert(lists@.map_values(|l: NamedList| l@) =~= lv.push(list@));
}

impl ArchiveFile {
    /// An archive with its title and no entry.
    pub open spec fn new_view() -> ArchiveView {
        ArchiveView { title: archive_title(), entries: seq![] }
    }

    pub fn new() -> (r: ArchiveFile)
        ensures
            r@ == ArchiveFile::new_view(),
            r@.wf(),
    {
        let mut title = String::new();
        push_char(&mut title, 'A');
        push_char(&mut title, 'r');
        push_char(&mut title, 'c');
        push_char(&mut title, 'h');
        push_char(&mut title, 'i');
        push_char(&mut title, 'v');
        push_char(&mut title, 'e');
        assert(title@ =~= archive_title());
        let r = ArchiveFile { title, entries: Vec::new() };
        assert(r@.entries =~= Seq::<EntryView>::empty());
        r
    }

    /// Adds `tasks` under `date` to the list `list_name`: merged into the
    /// entry of that date where there is one, else in a new entry put first.
    pub fn add_items_for_date(&mut self, date: &str, list_name: &str, tasks: Vec<Task>)
        ensures
            final(self)@ == with_items(old(self)@, date@, list_name@, tasks_view(tasks@)),
            old(self)@.wf() ==> final(self)@.wf(),
    {
        proof {
            if self@.wf() {
                lemma_with_items_wf(self@, date@, list_name@, tasks_view(tasks@));
            }
        }
        let d = date.to_owned();
        let name = list_name.to_owned();
        let ghost a = self@;
        let ghost tv = tasks_view(tasks@);
        let ghost ev = self.entries@.map_values(|e: ArchiveEntry| e@);
        assert(ev == a.entries);
        let mut i: usize = 0;
        while i < self.entries.len()
            invariant
                i <= self.entries.len(),
                ev == self.entries@.map_values(|e: ArchiveEntry| e@),
                a == old(self)@,
                self@ == a,
                d@ == date@,
                name@ == list_name@,
                tv == tasks_view(tasks@),
                a.wf() ==> with_items(a, date@, list_name@, tv).wf(),
                forall|k: int| 0 <= k < i ==> (#[trigger] ev[k]).date != date@,
            decreases self.entries.len() - i,
        {
            if self.entries[i].date == d {
                assert(is_first_entry(ev, date@, i as int));
                assert(forall|j: int| is_first_entry(ev, date@, j) ==> j == i);
                let mut entry = self.entries.remove(i);
                add_to_named_list(&mut entry.lists, &name, tasks);
                self.entries.insert(i, entry);
                assert(self.entries@.map_values(|e: ArchiveEntry| e@) =~= with_items(
                    a,
                    date@,
                    list_name@,
                    tv,
                ).entries);
                return;
            }
            assert(ev[i as int].date != date@);
            i = i + 1;
        }
        let list = NamedList { name, tasks };
        let mut lists: Vec<NamedList> = Vec::new();
        lists.push(list);
        let entry = ArchiveEntry { date: d, lists };
        assert(entry@.lists =~= seq![list@]);
        self.entries.insert(0, entry);
        assert(self.entries@.map_values(|e: ArchiveEntry| e@) =~= seq![entry@] + ev);
    }

    /// Adds `tasks` to the list `list_name` under today's date.
    pub fn add_items_for_today(&mut self, list_name: &str, tasks: Vec<Task>)
        ensures
            exists|date: Seq<char>|
                final(self)@ == with_items(old(self)@, date, list_name@, tasks_view(tasks@)),
            old(self)@.wf() ==> final(self)@.wf(),
    {
        let date = today();
        self.add_items_for_date(date.as_str(), list_name, tasks);
    }
}

// ---------------------------------------------------------------- parsing

/// What one line of an archive says.
pub enum ArchiveLine {
    Blank,
    Title(Seq<char>),
    Date(Seq<char>),
    ListName(Seq<char>),
    Subtask(Seq<char>),
    Task(Seq<char>),
    Invalid,
}

/// The archive's line rules: `# title`, `## date`, `### list`, `  - subtask`
/// and `- task`; nothing else is allowed but blank lines.
pub open spec fn classify_archive(l: Seq<char>) -> ArchiveLine {
    let t = trim(l);
    if t.len() == 0 {
        ArchiveLine::Blank
    } else if t.len() >= 2 && t[0] == '#' && t[1] == ' ' {
        ArchiveLine::Title(t.skip(2))
    } else if t.len() >= 3 && t[0] == '#' && t[1] == '#' && t[2] == ' ' {
        ArchiveLine::Date(t.skip(3))
    } else if t.len() >= 4 && t[0] == '#' && t[1] == '#' && t[2] == '#' && t[3] == ' ' {
        ArchiveLine::ListName(t.skip(4))
    } else if l.len() >= 4 && l[0] == ' ' && l[1] == ' ' && l[2] == '-' && l[3] == ' ' && t.len()
        >= 2 {
        ArchiveLine::Subtask(t.skip(2))
    } else if t.len() >= 2 && t[0] == '-' && t[1] == ' ' {
        ArchiveLine::Task(t.skip(2))
    } else {
        ArchiveLine::Invalid
    }
}

/// The archive parser's state between two lines.
pub struct ArchiveState {
    pub title: Seq<char>,
    pub entries: Seq<EntryView>,
    pub entry: Option<EntryView>,
    pub list: Seq<char>,
    pub task: Option<TaskView>,
}

/// The open task joins the current list of the open entry; with no entry
/// open it is dropped.
pub open spec fn close_task(entry: Option<EntryView>, list: Seq<char>, task: Option<TaskView>) -> Option<EntryView> {
    match (entry, task) {
        (Some(e), Some(t)) => Some(EntryView { lists: add_to_lists(e.lists, list, seq![t]), ..e }),
        _ => entry,
    }
}

pub open spec fn closed_entries(entries: Seq<EntryView>, entry: Option<EntryView>) -> Seq<EntryView> {
    match entry {
        Some(e) => entries.push(e),
        None => entries,
    }
}

/// The state after a line, or `None` where the line is refused.
pub open spec fn archive_step(st: ArchiveState, l: Seq<char>) -> Option<ArchiveState> {
    match classify_archive(l) {
        ArchiveLine::Blank => Some(st),
        ArchiveLine::Title(x) => Some(ArchiveState { title: x, ..st }),
        ArchiveLine::Date(x) => Some(
            ArchiveState {
                entries: closed_entries(st.entries, close_task(st.entry, st.list, st.task)),
                entry: Some(EntryView { date: x, lists: seq![] }),
                list: default_list(),
                task: None,
                ..st
            },
        ),
        ArchiveLine::ListName(x) => Some(
            ArchiveState {
                entry: close_task(st.entry, st.list, st.task),
                list: x,
                task: None,
                ..st
            },
        ),
        ArchiveLine::Subtask(x) => match st.task {
            Some(t) => Some(
                ArchiveState { task: Some(TaskView { subtasks: t.subtasks.push(x), ..t }), ..st },
            ),
            None => None,
        },
        ArchiveLine::Task(x) => Some(
            ArchiveState {
                entry: close_task(st.entry, st.list, st.task),
                task: Some(task_of(x)),
                ..st
            },
        ),
        ArchiveLine::Invalid => None,
    }
}

/// The message for a refused line: its 1-based number and its trimmed text.
pub open spec fn archive_error(l: Seq<char>, number: nat) -> Seq<char> {
    let prefix = if classify_archive(l) is Subtask {
        "Subtask found without parent task at line "@
    } else {
        "Invalid archive format at line "@
    };
    prefix + decimal(number) + ": "@ + trim(l)
}

/// Runs the rules over `lines`, the first of which is line `first + 1`.
pub open spec fn run_archive(lines: Seq<Seq<char>>, st: ArchiveState, first: nat) -> Result<
    ArchiveState,
    Seq<char>,
>
    decreases lines.len(),
{
    if lines.len() == 0 {
        Ok(st)
    } else {
        match archive_step(st, lines[0]) {
            Some(next) => run_archive(lines.drop_first(), next, first + 1),
            None => Err(archive_error(lines[0], first + 1)),
        }
    }
}

pub open spec fn archive_initial() -> ArchiveState {
    ArchiveState {
        title: archive_title(),
        entries: seq![],
        entry: None,
        list: default_list(),
        task: None,
    }
}

/// The archive that a text denotes, or the message for its first refused
/// line.
pub open spec fn parse_archive(s: Seq<char>) -> Result<ArchiveView, Seq<char>> {
    let r = run_archive(lines_of(s), archive_initial(), 0);
    if r is Ok {
        let st = r->Ok_0;
        Ok(
            ArchiveView {
                title: st.title,
                entries: closed_entries(st.entries, close_task(st.entry, st.list, st.task)),
            },
        )
    } else {
        Err(r->Err_0)
    }
}

/// Every entry, the open one included, has lists of distinct names.
pub open spec fn state_wf(st: ArchiveState) -> bool {
    &&& forall|i: int| 0 <= i < st.entries.len() ==> lists_distinct(#[trigger] st.entries[i].lists)
    &&& st.entry is Some ==> lists_distinct(st.entry->Some_0.lists)
}

proof fn lemma_closed_wf(entries: Seq<EntryView>, entry: Option<EntryView>)
    requires
        forall|i: int| 0 <= i < entries.len() ==> lists_distinct(#[trigger] entries[i].lists),
        entry is Some ==> lists_distinct(entry->Some_0.lists),
    ensures
        forall|i: int|
            0 <= i < closed_entries(entries, entry).len() ==> lists_distinct(
                #[trigger] closed_entries(entries, entry)[i].lists,
            ),
{
    assert forall|i: int| 0 <= i < closed_entries(entries, entry).len() implies lists_distinct(
        #[trigger] closed_entries(entries, entry)[i].lists,
    ) by {
        if i < entries.len() {
            assert(closed_entries(entries, entry)[i] == entries[i]);
        }
    }
}

proof fn lemma_close_task_wf(entry: Option<EntryView>, list: Seq<char>, task: Option<TaskView>)
    requires
        entry is Some ==> lists_distinct(entry->Some_0.lists),
    ensures
        close_task(entry, list, task) is Some ==> lists_distinct(
            close_task(entry, list, task)->Some_0.lists,
        ),
{
    if entry is Some && task is Some {
        lemma_add_to_lists_distinct(entry->Some_0.lists, list, seq![task->Some_0]);
    }
}

proof fn lemma_step_wf(st: ArchiveState, l: Seq<char>)
    requires
        state_wf(st),
    ensures
        archive_step(st, l) is Some ==> state_wf(archive_step(st, l)->Some_0),
{
    lemma_close_task_wf(st.entry, st.list, st.task);
    lemma_closed_wf(st.entries, close_task(st.entry, st.list, st.task));
    let e = Seq::<ListView>::empty();
    assert(lists_distinct(e));
}

/// The archive parser keeps list names distinct in every entry.
proof fn lemma_run_archive_wf(lines: Seq<Seq<char>>, st: ArchiveState, first: nat)
    requires
        state_wf(st),
    ensures
        run_archive(lines, st, first) is Ok ==> state_wf(run_archive(lines, st, first)->Ok_0),
    decreases lines.len(),
{
    if lines.len() > 0 {
        lemma_step_wf(st, lines[0]);
        if archive_step(st, lines[0]) is Some {
            lemma_run_archive_wf(lines.drop_first(), archive_step(st, lines[0])->Some_0, first + 1);
        }
    }
}

spec fn opt_entry(e: Option<ArchiveEntry>) -> Option<EntryView> {
    match e {
        Some(x) => Some(x@),
        None => None,
    }
}

spec fn opt_task(t: Option<Task>) -> Option<TaskView> {
    match t {
        Some(x) => Some(x@),
        None => None,
    }
}

fn close_open_task(entry: Option<ArchiveEntry>, list: &String, task: Option<Task>) -> (r: Option<
    ArchiveEntry,
>)
    ensures
        opt_entry(r) == close_task(opt_entry(entry), list@, opt_task(task)),
{
    match (entry, task) {
        (Some(mut e), Some(t)) => {
            let ghost tv = t@;
            let mut one: Vec<Task> = Vec::new();
            one.push(t);
            assert(tasks_view(one@) =~= seq![tv]);
            add_to_named_list(&mut e.lists, list, one);
            Some(e)
        },
        (e, _) => e,
    }
}

fn push_entry(entries: &mut Vec<ArchiveEntry>, entry: Option<ArchiveEntry>)
    ensures
        final(entries)@.map_values(|e: ArchiveEntry| e@) == closed_entries(
            old(entries)@.map_values(|e: ArchiveEntry| e@),
            opt_entry(entry),
        ),
{
    match entry {
        Some(e) => {
            entries.push(e);
            assert(entries@.map_values(|e: ArchiveEntry| e@) =~= old(entries)@.map_values(
                |e: ArchiveEntry| e@,
            ).push(e@));
        },
        None => {},
    }
}

/// What `classify_line` found.
#[derive(Clone, Copy, PartialEq, Eq, Structural)]
enum LineClass {
    Blank,
    Title,
    Date,
    ListName,
    Subtask,
    Task,
    Invalid,
}

spec fn kind_of(c: LineClass, x: Seq<char>) -> ArchiveLine {
    match c {
        LineClass::Blank => ArchiveLine::Blank,
        LineClass::Title => ArchiveLine::Title(x),
        LineClass::Date => ArchiveLine::Date(x),
        LineClass::ListName => ArchiveLine::ListName(x),
        LineClass::Subtask => ArchiveLine::Subtask(x),
        LineClass::Task => ArchiveLine::Task(x),
        LineClass::Invalid => ArchiveLine::Invalid,
    }
}

/// Classifies the line `v[lo..hi]`; its text is `v[r.1..r.2]`, and its
/// trimmed form is `v[r.3..r.4]`.
fn classify_line(v: &Vec<char>, lo: usize, hi: usize) -> (r: (LineClass, usize, usize, usize, usize))
    requires
        lo <= hi <= v.len(),
    ensures
        r.1 <= r.2 <= v.len(),
        r.3 <= r.4 <= v.len(),
        classify_archive(v@.subrange(lo as int, hi as int)) == kind_of(
            r.0,
            v@.subrange(r.1 as int, r.2 as int),
        ),
        v@.subrange(r.3 as int, r.4 as int) == trim(v@.subrange(lo as int, hi as int)),
{
    let (a, b) = trim_range(v, lo, hi);
    let ghost t = v@.subrange(a as int, b as int);
    let n = b - a;
    if n == 0 {
        return (LineClass::Blank, a, b, a, b);
    }
    if n >= 2 && v[a] == '#' && v[a + 1] == ' ' {
        assert(t.skip(2) =~= v@.subrange(a + 2, b as int));
        return (LineClass::Title, a + 2, b, a, b);
    }
    if n >= 3 && v[a] == '#' && v[a + 1] == '#' && v[a + 2] == ' ' {
        assert(t.skip(3) =~= v@.subrange(a + 3, b as int));
        return (LineClass::Date, a + 3, b, a, b);
    }
    if n >= 4 && v[a] == '#' && v[a + 1] == '#' && v[a + 2] == '#' && v[a + 3] == ' ' {
        assert(t.skip(4) =~= v@.subrange(a + 4, b as int));
        return (LineClass::ListName, a + 4, b, a, b);
    }
    if hi - lo >= 4 && v[lo] == ' ' && v[lo + 1] == ' ' && v[lo + 2] == '-' && v[lo + 3] == ' '
        && n >= 2 {
        assert(t.skip(2) =~= v@.subrange(a + 2, b as int));
        return (LineClass::Subtask, a + 2, b, a, b);
    }
    if n >= 2 && v[a] == '-' && v[a + 1] == ' ' {
        assert(t.skip(2) =~= v@.subrange(a + 2, b as int));
        return (LineClass::Task, a + 2, b, a, b);
    }
    (LineClass::Invalid, a, b, a, b)
}

spec fn archive_state(
    title: String,
    entries: Seq<ArchiveEntry>,
    entry: Option<ArchiveEntry>,
    list: String,
    task: Option<Task>,
) -> ArchiveState {
    ArchiveState {
        title: title@,
        entries: entries.map_values(|e: ArchiveEntry| e@),
        entry: opt_entry(entry),
        list: list@,
        task: opt_task(task),
    }
}

proof fn lemma_run_archive_one(l: Seq<char>, rest: Seq<Seq<char>>, st: ArchiveState, first: nat)
    ensures
        run_archive(seq![l] + rest, st, first) == match archive_step(st, l) {
            Some(next) => run_archive(rest, next, first + 1),
            None => Err(archive_error(l, first + 1)),
        },
{
    assert((seq![l] + rest).drop_first() =~= rest);
    assert((seq![l] + rest)[0] == l);
}

/// Parses an archive strictly: any line that is not a title, a date, a list
/// header, a task or a subtask of one is refused with its line number.
pub fn parse_archive_file(content: &str) -> (r: Result<ArchiveFile, String>)
    ensures
        match parse_archive(content@) {
            Ok(a) => r is Ok && r->Ok_0@ == a,
            Err(m) => r is Err && r->Err_0@ == m,
        },
        r is Ok ==> r->Ok_0@.wf(),
{
    let v = chars_of(content);
    let n = v.len();
    let ghost s = content@;
    let empty = ArchiveFile::new();
    let mut title = empty.title;
    let mut entries: Vec<ArchiveEntry> = Vec::new();
    let mut entry: Option<ArchiveEntry> = None;
    let mut list = default_list_name();
    let mut task: Option<Task> = None;
    let mut count: usize = 0;
    let mut pos: usize = 0;
    assert(s.skip(0) =~= s);
    assert(entries@.map_values(|e: ArchiveEntry| e@) =~= Seq::<EntryView>::empty());
    while pos < n
        invariant
            pos <= n == v.len(),
            v@ == s,
            s == content@,
            count <= pos,
            run_archive(
                lines_of(s.skip(pos as int)),
                archive_state(title, entries@, entry, list, task),
                count as nat,
            ) == run_archive(lines_of(s), archive_initial(), 0),
        decreases n - pos,
    {
        let (le, next) = next_line(&v, pos);
        let ghost line = v@.subrange(pos as int, le as int);
        let ghost st0 = archive_state(title, entries@, entry, list, task);
        proof {
            lemma_run_archive_one(line, lines_of(s.skip(next as int)), st0, count as nat);
        }
        let (class, x, y, ta, tb) = classify_line(&v, pos, le);
        match class {
            LineClass::Blank => {},
            LineClass::Title => {
                title = string_of(&v, x, y);
            },
            LineClass::Date => {
                let closed = close_open_task(entry, &list, task);
                push_entry(&mut entries, closed);
                entry = Some(ArchiveEntry { date: string_of(&v, x, y), lists: Vec::new() });
                assert(opt_entry(entry)->Some_0.lists =~= Seq::<ListView>::empty());
                list = default_list_name();
                task = None;
            },
            LineClass::ListName => {
                entry = close_open_task(entry, &list, task);
                list = string_of(&v, x, y);
                task = None;
            },
            LineClass::Subtask => {
                match task {
                    Some(mut t) => {
                        t.add_subtask(string_of(&v, x, y));
                        task = Some(t);
                    },
                    None => {
                        let mut m = "Subtask found without parent task at line ".to_owned();
                        m.append(decimal_string(count + 1).as_str());
                        m.append(": ");
                        m.append(string_of(&v, ta, tb).as_str());
                        assert(archive_step(st0, line) is None);
                        assert(m@ =~= archive_error(line, (count + 1) as nat));
                        return Err(m);
                    },
                }
            },
            LineClass::Task => {
                entry = close_open_task(entry, &list, task);
                task = Some(Task::new(string_of(&v, x, y)));
            },
            LineClass::Invalid => {
                let mut m = "Invalid archive format at line ".to_owned();
                m.append(decimal_string(count + 1).as_str());
                m.append(": ");
                m.append(string_of(&v, ta, tb).as_str());
                assert(archive_step(st0, line) is None);
                assert(m@ =~= archive_error(line, (count + 1) as nat));
                return Err(m);
            },
        }
        assert(Some(archive_state(title, entries@, entry, list, task)) == archive_step(st0, line));
        count = count + 1;
        pos = next;
    }
    assert(s.skip(n as int) =~= Seq::<char>::empty());
    let ghost st_end = archive_state(title, entries@, entry, list, task);
    proof {
        assert(lines_of(s.skip(n as int)) =~= Seq::<Seq<char>>::empty());
        assert(run_archive(lines_of(s), archive_initial(), 0) == Ok::<ArchiveState, Seq<char>>(st_end));
        assert(state_wf(archive_initial()));
        lemma_run_archive_wf(lines_of(s), archive_initial(), 0);
        lemma_close_task_wf(st_end.entry, st_end.list, st_end.task);
        lemma_closed_wf(st_end.entries, close_task(st_end.entry, st_end.list, st_end.task));
    }
    let closed = close_open_task(entry, &list, task);
    push_entry(&mut entries, closed);
    Ok(ArchiveFile { title, entries })
}

// ---------------------------------------------------------------- generation

pub open spec fn subtasks_text(subs: Seq<Seq<char>>) -> Seq<char>
    decreases subs.len(),
{
    if subs.len() == 0 {
        seq![]
    } else {
        subtasks_text(subs.drop_last()) + seq![' ', ' ', '-', ' '] + subs.last() + seq!['\n']
    }
}

/// `- text`, then `  - subtask` for each subtask, one per line.
pub open spec fn task_text(t: TaskView) -> Seq<char> {
    seq!['-', ' '] + t.text + seq!['\n'] + subtasks_text(t.subtasks)
}

pub open spec fn tasks_text(ts: Seq<TaskView>) -> Seq<char>
    decreases ts.len(),
{
    if ts.len() == 0 {
        seq![]
    } else {
        tasks_text(ts.drop_last()) + task_text(ts.last())
    }
}

/// The tasks of the default list, which are written without a header.
pub open spec fn default_part(lists: Seq<ListView>) -> Seq<char> {
    if exists|i: int| is_first_list(lists, default_list(), i) {
        let i = choose|i: int| is_first_list(lists, default_list(), i);
        tasks_text(lists[i].tasks)
    } else {
        seq![]
    }
}

/// Every other list that holds tasks, each after a `### name` header.
pub open spec fn other_parts(lists: Seq<ListView>) -> Seq<char>
    decreases lists.len(),
{
    if lists.len() == 0 {
        seq![]
    } else {
        let l = lists.last();
        other_parts(lists.drop_last()) + if l.name != default_list() && l.tasks.len() > 0 {
            seq!['\n', '#', '#', '#', ' '] + l.name + seq!['\n'] + tasks_text(l.tasks)
        } else {
            seq![]
        }
    }
}

pub open spec fn entry_text(e: EntryView) -> Seq<char> {
    seq!['#', '#', ' '] + e.date + seq!['\n'] + default_part(e.lists) + other_parts(e.lists)
        + seq!['\n']
}

pub open spec fn entries_text(es: Seq<EntryView>) -> Seq<char>
    decreases es.len(),
{
    if es.len() == 0 {
        seq![]
    } else {
        entries_text(es.drop_last()) + entry_text(es.last())
    }
}

/// The archive's text: `# title`, a blank line, then each entry; trailing
/// white space cut and one line break put back.
pub open spec fn generate_archive(a: ArchiveView) -> Seq<char> {
    trim_end(seq!['#', ' '] + a.title + seq!['\n', '\n'] + entries_text(a.entries)).push('\n')
}

fn append_tasks(content: &mut String, tasks: &Vec<Task>)
    ensures
        final(content)@ == old(content)@ + tasks_text(tasks_view(tasks@)),
{
    let ghost start = content@;
    let mut i: usize = 0;
    while i < tasks.len()
        invariant
            i <= tasks.len(),
            content@ == start + tasks_text(tasks_view(tasks@).take(i as int)),
        decreases tasks.len() - i,
    {
        let t = &tasks[i];
        let ghost tv = tasks_view(tasks@)[i as int];
        assert(tv == t@);
        let ghost mid = content@;
        push_char(content, '-');
        push_char(content, ' ');
        content.append(t.text.as_str());
        push_char(content, '\n');
        assert(content@ =~= mid + seq!['-', ' '] + tv.text + seq!['\n']);
        let ghost head = content@;
        let mut j: usize = 0;
        while j < t.subtasks.len()
            invariant
                j <= t.subtasks.len(),
                tv == t@,
                content@ == head + subtasks_text(tv.subtasks.take(j as int)),
            decreases t.subtasks.len() - j,
        {
            push_char(content, ' ');
            push_char(content, ' ');
            push_char(content, '-');
            push_char(content, ' ');
            content.append(t.subtasks[j].as_str());
            push_char(content, '\n');
            assert(tv.subtasks.take(j + 1).drop_last() =~= tv.subtasks.take(j as int));
            assert(content@ =~= head + subtasks_text(tv.subtasks.take(j + 1)));
            j = j + 1;
        }
        assert(tv.subtasks.take(j as int) =~= tv.subtasks);
        assert(tasks_view(tasks@).take(i + 1).drop_last() =~= tasks_view(tasks@).take(i as int));
        assert(content@ =~= start + tasks_text(tasks_view(tasks@).take(i + 1)));
        i = i + 1;
    }
    assert(tasks_view(tasks@).take(i as int) =~= tasks_view(tasks@));
}

fn append_entry(content: &mut String, entry: &ArchiveEntry)
    ensures
        final(content)@ == old(content)@ + entry_text(entry@),
{
    let ghost e = entry@;
    let ghost lv = e.lists;
    let default_name = default_list_name();
    push_char(content, '#');
    push_char(content, '#');
    push_char(content, ' ');
    content.append(entry.date.as_str());
    push_char(content, '\n');
    let ghost head = content@;
    assert(head =~= old(content)@ + seq!['#', '#', ' '] + e.date + seq!['\n']);
    let mut i: usize = 0;
    let mut found = false;
    while i < entry.lists.len() && !found
        invariant
            i <= entry.lists.len(),
            lv == entry.lists@.map_values(|l: NamedList| l@),
            default_name@ == default_list(),
            found ==> i < entry.lists.len() && is_first_list(lv, default_list(), i as int),
            !found ==> forall|k: int| 0 <= k < i ==> (#[trigger] lv[k]).name != default_list(),
        decreases entry.lists.len() - i, if found { 0int } else { 1int },
    {
        if entry.lists[i].name == default_name {
            assert(is_first_list(lv, default_list(), i as int));
            found = true;
        } else {
            assert(lv[i as int].name != default_list());
            i = i + 1;
        }
    }
    if found {
        assert(forall|j: int| is_first_list(lv, default_list(), j) ==> j == i);
        append_tasks(content, &entry.lists[i].tasks);
    }
    assert(content@ == head + default_part(lv));
    let ghost mid = content@;
    let mut k: usize = 0;
    while k < entry.lists.len()
        invariant
            k <= entry.lists.len(),
            lv == entry.lists@.map_values(|l: NamedList| l@),
            default_name@ == default_list(),
            content@ == mid + other_parts(lv.take(k as int)),
        decreases entry.lists.len() - k,
    {
        let list = &entry.lists[k];
        assert(lv[k as int] == list@);
        assert(lv.take(k + 1).drop_last() =~= lv.take(k as int));
        if !(list.name == default_name) && list.tasks.len() > 0 {
            push_char(content, '\n');
            push_char(content, '#');
            push_char(content, '#');
            push_char(content, '#');
            push_char(content, ' ');
            content.append(list.name.as_str());
            push_char(content, '\n');
            append_tasks(content, &list.tasks);
        }
        assert(content@ =~= mid + other_parts(lv.take(k + 1)));
        k = k + 1;
    }
    assert(lv.take(k as int) =~= lv);
    push_char(content, '\n');
    assert(content@ =~= old(content)@ + entry_text(e));
}

/// Writes the archive: entries in order, each with its default list first
/// and its other lists under headers.
pub fn generate_archive_file(archive: &ArchiveFile) -> (r: String)
    ensures
        r@ == generate_archive(archive@),
{
    let ghost a = archive@;
    let mut content = String::new();
    push_char(&mut content, '#');
    push_char(&mut content, ' ');
    content.append(archive.title.as_str());
    push_char(&mut content, '\n');
    push_char(&mut content, '\n');
    let ghost head = content@;
    assert(head =~= seq!['#', ' '] + a.title + seq!['\n', '\n']);
    let mut i: usize = 0;
    while i < archive.entries.len()
        invariant
            i <= archive.entries.len(),
            a == archive@,
            content@ == head + entries_text(a.entries.take(i as int)),
        decreases archive.entries.len() - i,
    {
        assert(a.entries[i as int] == archive.entries[i as int]@);
        append_entry(&mut content, &archive.entries[i]);
        assert(a.entries.take(i + 1).drop_last() =~= a.entries.take(i as int));
        assert(content@ =~= head + entries_text(a.entries.take(i + 1)));
        i = i + 1;
    }
    assert(a.entries.take(i as int) =~= a.entries);
    let v = chars_of(content.as_str());
    let b = trim_end_len(&v, v.len());
    assert(v@.subrange(0, v.len() as int) =~= v@);
    let mut r = string_of(&v, 0, b);
    push_char(&mut r, '\n');
    r
}

} // verus!
