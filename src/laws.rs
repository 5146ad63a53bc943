//! What holds between the parser and the generator: a canonical document
//! survives being written and read back, and writing is a fixed point.

use vstd::prelude::*;
use crate::model::{TaskView, TodoView, task_of};
use crate::text::{
    has_newline, is_trimmed, is_ws, join_lines, lemma_join_lines_push, lemma_lines_of_join,
    lemma_trim_end_id, lemma_trim_start_id, lemma_trimmed_id, lines_of, trim, trim_end,
    trim_start,
};
use crate::todo::{
    LineKind, ParseState, body_lines, classify, default_title, doc_lines, flushed, generate_todo,
    initial_state, open_task, parse_todo, run, step, subtask_line, subtask_lines, task_line,
    task_lines, title_line,
};

verus! {

/// Text that a task or subtask can hold in canonical form: not empty, no
/// white space at either end, and on one line.
pub open spec fn is_plain_text(x: Seq<char>) -> bool {
    x.len() > 0 && is_trimmed(x) && !has_newline(x)
}

pub open spec fn is_plain_task(t: TaskView) -> bool {
    is_plain_text(t.text) && forall|j: int|
        0 <= j < t.subtasks.len() ==> is_plain_text(#[trigger] t.subtasks[j])
}

/// A document in canonical form: a one-line title without white space at
/// its ends, and tasks and subtasks of plain text.
pub open spec fn is_canonical(doc: TodoView) -> bool {
    &&& is_trimmed(doc.title)
    &&& !has_newline(doc.title)
    &&& forall|i: int| 0 <= i < doc.tasks.len() ==> is_plain_task(#[trigger] doc.tasks[i])
}

/// A line that splits back as itself and ends in a visible character.
spec fn is_solid_line(l: Seq<char>) -> bool {
    l.len() > 0 && !has_newline(l) && !is_ws(l.last())
}

proof fn lemma_run_append(a: Seq<Seq<char>>, b: Seq<Seq<char>>, st: ParseState)
    ensures
        run(a + b, st) == run(b, run(a, st)),
    decreases a.len(),
{
    if a.len() > 0 {
        assert((a + b).drop_first() =~= a.drop_first() + b);
        assert((a + b)[0] == a[0]);
        lemma_run_append(a.drop_first(), b, step(st, a[0]));
    } else {
        assert(a + b =~= b);
    }
}

proof fn lemma_run_push(a: Seq<Seq<char>>, l: Seq<char>, st: ParseState)
    ensures
        run(a.push(l), st) == step(run(a, st), l),
{
    lemma_run_append(a, seq![l], st);
    assert(a + seq![l] =~= a.push(l));
    let e = Seq::<Seq<char>>::empty();
    assert(seq![l].drop_first() =~= e);
    assert(seq![l][0] == l);
    let x = run(a, st);
    assert(run(seq![l], x) == run(e, step(x, l)));
}

proof fn lemma_prefix_no_newline(p: Seq<char>, x: Seq<char>)
    requires
        !has_newline(p),
        !has_newline(x),
    ensures
        !has_newline(p + x),
{
    if has_newline(p + x) {
        let i = choose|i: int| 0 <= i < (p + x).len() && (p + x)[i] == '\n';
        if i < p.len() {
            assert(p[i] == '\n');
        } else {
            assert(x[i - p.len()] == '\n');
        }
    }
}

proof fn lemma_classify_task_line(x: Seq<char>)
    requires
        is_plain_text(x),
    ensures
        classify(task_line(x)) == LineKind::Task(x),
        is_solid_line(task_line(x)),
{
    let l = task_line(x);
    lemma_trim_start_id(l);
    lemma_trim_end_id(l);
    assert(l.skip(2) =~= x);
    lemma_trimmed_id(x);
    lemma_prefix_no_newline(seq!['-', ' '], x);
}

proof fn lemma_classify_subtask_line(x: Seq<char>)
    requires
        is_plain_text(x),
    ensures
        classify(subtask_line(x)) == LineKind::Subtask(x),
        is_solid_line(subtask_line(x)),
{
    let l = subtask_line(x);
    let m = task_line(x);
    assert(l.drop_first().drop_first() =~= m);
    lemma_trim_start_id(m);
    assert(l[0] == ' ' && l.drop_first()[0] == ' ');
    assert(trim_start(l.drop_first()) == trim_start(m));
    assert(trim_start(l) == trim_start(l.drop_first()));
    assert(trim_start(l) == m);
    lemma_trim_end_id(m);
    assert(l.skip(4) =~= x);
    lemma_trimmed_id(x);
    lemma_prefix_no_newline(seq![' ', ' ', '-', ' '], x);
}

proof fn lemma_classify_title_line(t: Seq<char>)
    requires
        is_trimmed(t),
    ensures
        classify(title_line(t)) == LineKind::Title(t),
        classify(trim_end(title_line(t))) == LineKind::Title(t),
{
    let l = title_line(t);
    assert(l[0] == '#' && l[1] == ' ');
    lemma_trim_start_id(l);
    lemma_trimmed_id(t);
    if t.len() > 0 {
        assert(l.last() == t.last());
        lemma_trim_end_id(l);
        assert(trim(l) == l);
        let d = l.drop_first();
        assert(d.drop_first() =~= t);
        assert(d[0] == ' ');
        lemma_trim_start_id(t);
        assert(trim_start(d) == trim_start(t));
        assert(trim(d) == t);
    } else {
        let h = seq!['#'];
        assert(l.drop_last() =~= h);
        lemma_trim_end_id(h);
        assert(trim_end(l) == h);
        lemma_trim_start_id(h);
        let e = Seq::<char>::empty();
        assert(h.drop_first() =~= e);
        assert(trim(e) == e);
        assert(t =~= e);
        assert(trim(l) == h);
        assert(trim(h) == h);
    }
}

proof fn lemma_classify_blank()
    ensures
        classify(Seq::<char>::empty()) == LineKind::Blank,
{
}

/// Reading a task's subtask lines adds them to the open task.
proof fn lemma_run_subtasks(subs: Seq<Seq<char>>, st: ParseState, t: TaskView)
    requires
        st.current == Some(t),
        forall|j: int| 0 <= j < subs.len() ==> is_plain_text(#[trigger] subs[j]),
    ensures
        run(subtask_lines(subs), st) == (ParseState {
            current: Some(TaskView { subtasks: t.subtasks + subs, ..t }),
            ..st
        }),
    decreases subs.len(),
{
    if subs.len() == 0 {
        assert(t.subtasks + subs =~= t.subtasks);
        assert(subtask_lines(subs) =~= Seq::<Seq<char>>::empty());
    } else {
        let init = subs.drop_last();
        let x = subs.last();
        lemma_run_subtasks(init, st, t);
        assert(subtask_lines(subs) =~= subtask_lines(init).push(subtask_line(x)));
        lemma_run_push(subtask_lines(init), subtask_line(x), st);
        lemma_classify_subtask_line(x);
        assert(t.subtasks + init.push(x) =~= (t.subtasks + init).push(x));
        assert(init.push(x) =~= subs);
    }
}

/// Reading a task's lines closes the open task and opens this one.
proof fn lemma_run_task(t: TaskView, st: ParseState)
    requires
        is_plain_task(t),
    ensures
        run(task_lines(t), st) == (ParseState {
            tasks: flushed(st),
            current: Some(t),
            ..st
        }),
{
    lemma_classify_task_line(t.text);
    let st1 = open_task(st, t.text);
    assert(step(st, task_line(t.text)) == st1);
    let rest = subtask_lines(t.subtasks);
    assert((seq![task_line(t.text)] + rest).drop_first() =~= rest);
    assert(run(task_lines(t), st) == run(rest, st1));
    lemma_run_subtasks(t.subtasks, st1, task_of(t.text));
    assert(Seq::<Seq<char>>::empty() + t.subtasks =~= t.subtasks);
}

/// Reading the body lines of a document adds its tasks.
proof fn lemma_run_body(tasks: Seq<TaskView>, st: ParseState)
    requires
        forall|i: int| 0 <= i < tasks.len() ==> is_plain_task(#[trigger] tasks[i]),
    ensures
        flushed(run(body_lines(tasks), st)) == flushed(st) + tasks,
        run(body_lines(tasks), st).title == st.title,
    decreases tasks.len(),
{
    if tasks.len() == 0 {
        assert(flushed(st) + tasks =~= flushed(st));
    } else {
        let init = tasks.drop_last();
        let t = tasks.last();
        lemma_run_body(init, st);
        let mid = run(body_lines(init), st);
        lemma_run_append(body_lines(init), task_lines(t), st);
        lemma_run_task(t, mid);
        assert((flushed(st) + init).push(t) =~= flushed(st) + tasks);
    }
}

/// Every body line is solid, so it splits back as itself.
proof fn lemma_body_solid(tasks: Seq<TaskView>)
    requires
        forall|i: int| 0 <= i < tasks.len() ==> is_plain_task(#[trigger] tasks[i]),
    ensures
        forall|k: int|
            0 <= k < body_lines(tasks).len() ==> is_solid_line(#[trigger] body_lines(tasks)[k]),
    decreases tasks.len(),
{
    if tasks.len() > 0 {
        let init = tasks.drop_last();
        let t = tasks.last();
        lemma_body_solid(init);
        lemma_classify_task_line(t.text);
        assert forall|j: int| 0 <= j < t.subtasks.len() implies is_solid_line(
            #[trigger] subtask_lines(t.subtasks)[j],
        ) by {
            lemma_classify_subtask_line(t.subtasks[j]);
        }
        let a = body_lines(init);
        let b = task_lines(t);
        assert forall|k: int| 0 <= k < (a + b).len() implies is_solid_line(#[trigger] (a + b)[k]) by {
            if k < a.len() {
                assert((a + b)[k] == a[k]);
            } else if k == a.len() {
                assert((a + b)[k] == b[0]);
            } else {
                assert((a + b)[k] == b[k - a.len()]);
                assert(b[k - a.len()] == subtask_lines(t.subtasks)[k - a.len() - 1]);
            }
        }
    }
}

proof fn lemma_trim_end_newline(s: Seq<char>)
    ensures
        trim_end(s.push('\n')) == trim_end(s),
{
    assert(s.push('\n').drop_last() =~= s);
}

/// The lines of a canonical document's text are its lines, or its title
/// line alone when it has no task.
proof fn lemma_lines_of_generated(doc: TodoView)
    requires
        is_canonical(doc),
    ensures
        doc.tasks.len() > 0 ==> lines_of(generate_todo(doc)) == doc_lines(doc),
        doc.tasks.len() == 0 ==> lines_of(generate_todo(doc)) == seq![
            trim_end(title_line(doc.title)),
        ],
{
    let ls = doc_lines(doc);
    let head = title_line(doc.title);
    let body = body_lines(doc.tasks);
    lemma_body_solid(doc.tasks);
    lemma_prefix_no_newline(seq!['#', ' '], doc.title);
    if doc.tasks.len() > 0 {
        assert(body.len() > 0) by {
            let init = doc.tasks.drop_last();
            assert(body == body_lines(init) + task_lines(doc.tasks.last()));
        }
        let l = ls.last();
        assert(l == body.last());
        assert(is_solid_line(body[body.len() - 1]));
        assert(ls.drop_last().push(l) =~= ls);
        lemma_join_lines_push(ls.drop_last(), l);
        let x = join_lines(ls.drop_last()) + l;
        assert(join_lines(ls) == x.push('\n'));
        lemma_trim_end_newline(x);
        lemma_trim_end_id(x);
        assert forall|i: int| 0 <= i < ls.len() implies !has_newline(#[trigger] ls[i]) && (
        ls[i].len() == 0 || ls[i].last() != '\r') by {
            if i >= 2 {
                assert(ls[i] == body[i - 2]);
            } else if i == 0 {
                if doc.title.len() > 0 {
                    assert(head.last() == doc.title.last());
                }
            }
        }
        lemma_lines_of_join(ls);
    } else {
        let h = trim_end(head);
        assert(body =~= Seq::<Seq<char>>::empty());
        let e = Seq::<Seq<char>>::empty();
        assert(ls =~= e.push(head).push(Seq::<char>::empty()));
        lemma_join_lines_push(e, head);
        lemma_join_lines_push(e.push(head), Seq::<char>::empty());
        assert(join_lines(ls) =~= head.push('\n').push('\n'));
        lemma_trim_end_newline(head.push('\n'));
        lemma_trim_end_newline(head);
        assert(generate_todo(doc) == h.push('\n'));
        lemma_join_lines_push(e, h);
        assert(e.push(h) =~= seq![h]);
        assert(join_lines(seq![h]) =~= h.push('\n'));
        // trim_end(head) is "# title", or "#" when the title is empty.
        if doc.title.len() > 0 {
            lemma_trim_end_id(head);
            assert(h.last() == doc.title.last());
        } else {
            assert(head.drop_last() =~= seq!['#']);
            lemma_trim_end_id(seq!['#']);
        }
        assert(!has_newline(h));
        lemma_lines_of_join(seq![h]);
    }
}

/// Round trip: reading the canonical text of a canonical document gives
/// back the same document.
pub proof fn lemma_round_trip(doc: TodoView)
    requires
        is_canonical(doc),
    ensures
        parse_todo(generate_todo(doc)) == doc,
{
    lemma_lines_of_generated(doc);
    lemma_classify_title_line(doc.title);
    let st0 = initial_state();
    let st1 = ParseState { title: doc.title, ..st0 };
    if doc.tasks.len() > 0 {
        let head = seq![title_line(doc.title), Seq::<char>::empty()];
        lemma_run_append(head, body_lines(doc.tasks), st0);
        lemma_classify_blank();
        let e = Seq::<Seq<char>>::empty();
        let blank = Seq::<char>::empty();
        assert(head[0] == title_line(doc.title));
        assert(head.drop_first() =~= seq![blank]);
        assert(seq![blank][0] == blank);
        assert(seq![blank].drop_first() =~= e);
        assert(step(st0, title_line(doc.title)) == st1);
        assert(step(st1, blank) == st1);
        assert(run(seq![blank], st1) == run(e, st1));
        assert(run(head, st0) == run(seq![blank], st1));
        assert(run(head, st0) == st1);
        lemma_run_body(doc.tasks, st1);
        assert(Seq::<TaskView>::empty() + doc.tasks =~= doc.tasks);
    } else {
        let h = trim_end(title_line(doc.title));
        let e = Seq::<Seq<char>>::empty();
        assert(seq![h].drop_first() =~= e);
        assert(seq![h][0] == h);
        assert(step(st0, h) == st1);
        assert(run(seq![h], st0) == run(e, st1));
        assert(run(seq![h], st0) == st1);
        assert(doc.tasks =~= Seq::<TaskView>::empty());
    }
}

/// Writing is idempotent: the canonical text of a canonical document, read
/// back and written again, is the same text.
pub proof fn lemma_generate_idempotent(doc: TodoView)
    requires
        is_canonical(doc),
    ensures
        generate_todo(parse_todo(generate_todo(doc))) == generate_todo(doc),
{
    lemma_round_trip(doc);
}

/// One of the bullet characters a task line may start with.
pub open spec fn is_bullet_char(b: char) -> bool {
    b == '-' || b == '*' || b == '+'
}

/// The indentations a subtask line may have: two, three or four spaces, or
/// a tab, for `k` from 0 to 3.
pub open spec fn indent(k: nat) -> Seq<char> {
    if k == 0 {
        seq![' ', ' ']
    } else if k == 1 {
        seq![' ', ' ', ' ']
    } else if k == 2 {
        seq![' ', ' ', ' ', ' ']
    } else {
        seq!['\t']
    }
}

/// A task written in any of the accepted styles: a bullet, its text, and
/// subtasks each with its own indentation.
pub struct StyledTask {
    pub bullet: char,
    pub text: Seq<char>,
    pub indents: Seq<nat>,
    pub subtasks: Seq<Seq<char>>,
}

pub open spec fn is_styled(t: StyledTask) -> bool {
    &&& is_bullet_char(t.bullet)
    &&& is_plain_text(t.text)
    &&& t.indents.len() == t.subtasks.len()
    &&& forall|j: int| 0 <= j < t.indents.len() ==> #[trigger] t.indents[j] < 4
    &&& forall|j: int| 0 <= j < t.subtasks.len() ==> is_plain_text(#[trigger] t.subtasks[j])
}

pub open spec fn styled_sub_lines(indents: Seq<nat>, subs: Seq<Seq<char>>) -> Seq<Seq<char>>
    decreases subs.len(),
{
    if subs.len() == 0 {
        seq![]
    } else {
        styled_sub_lines(indents.drop_last(), subs.drop_last()).push(
            indent(indents.last()) + task_line(subs.last()),
        )
    }
}

pub open spec fn styled_lines(t: StyledTask) -> Seq<Seq<char>> {
    seq![seq![t.bullet, ' '] + t.text] + styled_sub_lines(t.indents, t.subtasks)
}

pub open spec fn styled_body(ts: Seq<StyledTask>) -> Seq<Seq<char>>
    decreases ts.len(),
{
    if ts.len() == 0 {
        seq![]
    } else {
        styled_body(ts.drop_last()) + styled_lines(ts.last())
    }
}

pub open spec fn styled_task_view(t: StyledTask) -> TaskView {
    TaskView { text: t.text, subtasks: t.subtasks }
}

proof fn lemma_trim_start_ws_prefix(c: char, m: Seq<char>)
    requires
        is_ws(c),
    ensures
        trim_start(seq![c] + m) == trim_start(m),
{
    assert((seq![c] + m).drop_first() =~= m);
}

proof fn lemma_classify_bullet_line(b: char, x: Seq<char>)
    requires
        is_bullet_char(b),
        is_plain_text(x),
    ensures
        classify(seq![b, ' '] + x) == LineKind::Task(x),
        is_solid_line(seq![b, ' '] + x),
{
    let l = seq![b, ' '] + x;
    lemma_trim_start_id(l);
    assert(l.last() == x.last());
    lemma_trim_end_id(l);
    assert(l.skip(2) =~= x);
    lemma_trimmed_id(x);
    lemma_prefix_no_newline(seq![b, ' '], x);
}

proof fn lemma_classify_indented_line(k: nat, x: Seq<char>)
    requires
        k < 4,
        is_plain_text(x),
    ensures
        classify(indent(k) + task_line(x)) == LineKind::Subtask(x),
        is_solid_line(indent(k) + task_line(x)),
{
    let m = task_line(x);
    let l = indent(k) + m;
    lemma_trim_start_id(m);
    assert(m.last() == x.last());
    lemma_trim_end_id(m);
    if k == 0 {
        assert(l =~= seq![' '] + (seq![' '] + m));
        lemma_trim_start_ws_prefix(' ', seq![' '] + m);
        lemma_trim_start_ws_prefix(' ', m);
        assert(l.skip(4) =~= x);
    } else if k == 1 {
        assert(l =~= seq![' '] + (seq![' '] + (seq![' '] + m)));
        lemma_trim_start_ws_prefix(' ', seq![' '] + (seq![' '] + m));
        lemma_trim_start_ws_prefix(' ', seq![' '] + m);
        lemma_trim_start_ws_prefix(' ', m);
        assert(l.skip(5) =~= x);
    } else if k == 2 {
        assert(l =~= seq![' '] + (seq![' '] + (seq![' '] + (seq![' '] + m))));
        lemma_trim_start_ws_prefix(' ', seq![' '] + (seq![' '] + (seq![' '] + m)));
        lemma_trim_start_ws_prefix(' ', seq![' '] + (seq![' '] + m));
        lemma_trim_start_ws_prefix(' ', seq![' '] + m);
        lemma_trim_start_ws_prefix(' ', m);
        assert(l.skip(6) =~= x);
    } else {
        assert(l =~= seq!['\t'] + m);
        lemma_trim_start_ws_prefix('\t', m);
        assert(l.skip(3) =~= x);
    }
    assert(trim(l) == m);
    lemma_trimmed_id(x);
    lemma_prefix_no_newline(indent(k), m);
    lemma_prefix_no_newline(seq!['-', ' '], x);
    assert(l.last() == x.last());
}

proof fn lemma_run_styled_subs(indents: Seq<nat>, subs: Seq<Seq<char>>, st: ParseState, t: TaskView)
    requires
        st.current == Some(t),
        indents.len() == subs.len(),
        forall|j: int| 0 <= j < indents.len() ==> #[trigger] indents[j] < 4,
        forall|j: int| 0 <= j < subs.len() ==> is_plain_text(#[trigger] subs[j]),
    ensures
        run(styled_sub_lines(indents, subs), st) == (ParseState {
            current: Some(TaskView { subtasks: t.subtasks + subs, ..t }),
            ..st
        }),
        forall|j: int|
            0 <= j < styled_sub_lines(indents, subs).len() ==> is_solid_line(
                #[trigger] styled_sub_lines(indents, subs)[j],
            ),
    decreases subs.len(),
{
    if subs.len() == 0 {
        assert(t.subtasks + subs =~= t.subtasks);
    } else {
        let init = subs.drop_last();
        let ii = indents.drop_last();
        let x = subs.last();
        let k = indents.last();
        assert(indents[indents.len() - 1] < 4);
        lemma_run_styled_subs(ii, init, st, t);
        let l = indent(k) + task_line(x);
        lemma_run_push(styled_sub_lines(ii, init), l, st);
        lemma_classify_indented_line(k, x);
        assert(t.subtasks + init.push(x) =~= (t.subtasks + init).push(x));
        assert(init.push(x) =~= subs);
        let ls = styled_sub_lines(indents, subs);
        assert forall|j: int| 0 <= j < ls.len() implies is_solid_line(#[trigger] ls[j]) by {
            if j < ls.len() - 1 {
                assert(ls[j] == styled_sub_lines(ii, init)[j]);
            }
        }
    }
}

proof fn lemma_run_styled_task(t: StyledTask, st: ParseState)
    requires
        is_styled(t),
    ensures
        run(styled_lines(t), st) == (ParseState {
            tasks: flushed(st),
            current: Some(styled_task_view(t)),
            ..st
        }),
        forall|j: int| 0 <= j < styled_lines(t).len() ==> is_solid_line(#[trigger] styled_lines(t)[j]),
{
    let first = seq![t.bullet, ' '] + t.text;
    lemma_classify_bullet_line(t.bullet, t.text);
    let st1 = open_task(st, t.text);
    let rest = styled_sub_lines(t.indents, t.subtasks);
    assert((seq![first] + rest).drop_first() =~= rest);
    assert((seq![first] + rest)[0] == first);
    lemma_run_styled_subs(t.indents, t.subtasks, st1, task_of(t.text));
    assert(Seq::<Seq<char>>::empty() + t.subtasks =~= t.subtasks);
    let ls = styled_lines(t);
    assert forall|j: int| 0 <= j < ls.len() implies is_solid_line(#[trigger] ls[j]) by {
        if j > 0 {
            assert(ls[j] == rest[j - 1]);
        }
    }
}

proof fn lemma_run_styled_body(ts: Seq<StyledTask>, st: ParseState)
    requires
        forall|i: int| 0 <= i < ts.len() ==> is_styled(#[trigger] ts[i]),
    ensures
        flushed(run(styled_body(ts), st)) == flushed(st) + ts.map_values(
            |t: StyledTask| styled_task_view(t),
        ),
        run(styled_body(ts), st).title == st.title,
        forall|j: int| 0 <= j < styled_body(ts).len() ==> is_solid_line(#[trigger] styled_body(ts)[j]),
    decreases ts.len(),
{
    let views = ts.map_values(|t: StyledTask| styled_task_view(t));
    if ts.len() == 0 {
        assert(flushed(st) + views =~= flushed(st));
    } else {
        let init = ts.drop_last();
        let t = ts.last();
        assert(is_styled(ts[ts.len() - 1]));
        lemma_run_styled_body(init, st);
        let mid = run(styled_body(init), st);
        lemma_run_append(styled_body(init), styled_lines(t), st);
        lemma_run_styled_task(t, mid);
        assert(init.map_values(|t: StyledTask| styled_task_view(t)).push(styled_task_view(t))
            =~= views);
        assert((flushed(st) + init.map_values(|t: StyledTask| styled_task_view(t))).push(
            styled_task_view(t),
        ) =~= flushed(st) + views);
        let a = styled_body(init);
        let b = styled_lines(t);
        assert forall|j: int| 0 <= j < (a + b).len() implies is_solid_line(#[trigger] (a + b)[j]) by {
            if j < a.len() {
                assert((a + b)[j] == a[j]);
            } else {
                assert((a + b)[j] == b[j - a.len()]);
            }
        }
    }
}

/// Forgiving parse: a document whose tasks use any of the bullets `-`, `*`
/// and `+`, and whose subtasks are indented by two, three or four spaces or
/// a tab, mixed freely, is read with each indented run attached to the
/// bulleted task just above it.
pub proof fn lemma_mixed_styles_parse(ts: Seq<StyledTask>)
    requires
        forall|i: int| 0 <= i < ts.len() ==> is_styled(#[trigger] ts[i]),
    ensures
        parse_todo(join_lines(styled_body(ts))) == (TodoView {
            title: default_title(),
            tasks: ts.map_values(|t: StyledTask| styled_task_view(t)),
        }),
{
    let st0 = initial_state();
    lemma_run_styled_body(ts, st0);
    let ls = styled_body(ts);
    assert forall|i: int| 0 <= i < ls.len() implies !has_newline(#[trigger] ls[i]) && (
    ls[i].len() == 0 || ls[i].last() != '\r') by {
        assert(is_solid_line(ls[i]));
    }
    lemma_lines_of_join(ls);
    assert(Seq::<TaskView>::empty() + ts.map_values(|t: StyledTask| styled_task_view(t)) =~= ts.map_values(
        |t: StyledTask| styled_task_view(t),
    ));
}

} // verus!
