//! What the list command shows: numbered lines for tasks and lettered
//! lines for subtasks, optionally filtered by a case-insensitive search; and
//! the small decisions of the terminal front end (palette index, background
//! probe, key decoding).

use vstd::prelude::*;
use vstd::string::StringExecFns;
use crate::model::{TaskView, TodoFile};
use crate::reference::{all_digits, digits_value};
use crate::text::{chars_of, decimal, decimal_string, index_of, lemma_index_of_at, push_char};

verus! {

/// The lowercase form of a text, as `str::to_lowercase` gives it.
pub uninterp spec fn lower_of(s: Seq<char>) -> Seq<char>;

/// Relies on `str::to_lowercase`: the result depends on the characters
/// alone.
#[verifier::external_body]
fn lowercase(s: &str) -> (r: String)
    ensures
        r@ == lower_of(s@),
{
    s.to_lowercase()
}

/// `needle` occurs in `hay` from position `i` on.
pub open spec fn infix_at(needle: Seq<char>, hay: Seq<char>, i: int) -> bool {
    0 <= i && i + needle.len() <= hay.len() && hay.subrange(i, i + needle.len()) == needle
}

pub open spec fn is_infix(needle: Seq<char>, hay: Seq<char>) -> bool {
    exists|i: int| infix_at(needle, hay, i)
}

/// Whether `needle` occurs in `hay`.
pub fn contains_text(hay: &str, needle: &str) -> (r: bool)
    ensures
        r == is_infix(needle@, hay@),
{
    let h = chars_of(hay);
    let nd = chars_of(needle);
    if nd.len() > h.len() {
        return false;
    }
    let mut i: usize = 0;
    while i <= h.len() - nd.len()
        invariant
            nd.len() <= h.len(),
            h@ == hay@,
            nd@ == needle@,
            forall|k: int| 0 <= k < i ==> !infix_at(needle@, hay@, k),
        decreases h.len() - nd.len() + 1 - i,
    {
        let mut j: usize = 0;
        while j < nd.len() && h[i + j] == nd[j]
            invariant
                i <= h.len() - nd.len(),
                nd.len() <= h.len(),
                h@ == hay@,
                nd@ == needle@,
                j <= nd.len(),
                forall|q: int| 0 <= q < j ==> h@[i + q] == nd@[q],
            decreases nd.len() - j,
        {
            j = j + 1;
        }
        if j == nd.len() {
            assert(h@.subrange(i as int, i + nd.len()) =~= nd@);
            assert(infix_at(needle@, hay@, i as int));
            return true;
        }
        assert(h@.subrange(i as int, i + nd.len())[j as int] != nd@[j as int]);
        i = i + 1;
    }
    false
}

/// Whether `text` contains `filter`, ignoring case.
pub fn matches_filter(text: &str, filter: &str) -> (r: bool)
    ensures
        r == is_infix(lower_of(filter@), lower_of(text@)),
{
    let t = lowercase(text);
    let f = lowercase(filter);
    contains_text(t.as_str(), f.as_str())
}

/// A line of the listing.
pub struct ItemView {
    pub task_number: nat,
    pub subtask_index: Option<nat>,
    pub line: Seq<char>,
}

/// `d` right-aligned in three columns.
pub open spec fn pad3(d: Seq<char>) -> Seq<char> {
    if d.len() >= 3 {
        d
    } else if d.len() == 2 {
        seq![' '] + d
    } else {
        seq![' ', ' '] + d
    }
}

/// The letter of subtask `j`.
pub open spec fn letter(j: nat) -> char {
    if j < 26 {
        ((j + 97) as u8) as char
    } else {
        '?'
    }
}

/// `  3. text`
pub open spec fn task_label(number: nat, text: Seq<char>) -> Seq<char> {
    pad3(decimal(number)) + seq!['.', ' '] + text
}

/// `     b. text`
pub open spec fn subtask_label(j: nat, text: Seq<char>) -> Seq<char> {
    seq![' ', ' ', ' ', ' ', ' ', letter(j), '.', ' '] + text
}

pub open spec fn task_item(i: nat, t: TaskView) -> ItemView {
    ItemView { task_number: i + 1, subtask_index: None, line: task_label(i + 1, t.text) }
}

pub open spec fn subtask_item(i: nat, j: nat, s: Seq<char>) -> ItemView {
    ItemView { task_number: i + 1, subtask_index: Some(j), line: subtask_label(j, s) }
}

/// The lines of the first `m` subtasks of task `i` that `q`, where given,
/// occurs in, ignoring case.
pub open spec fn subtask_items(i: nat, subs: Seq<Seq<char>>, q: Option<Seq<char>>, m: nat) -> Seq<
    ItemView,
>
    decreases m,
{
    if m == 0 {
        seq![]
    } else {
        let r = subtask_items(i, subs, q, (m - 1) as nat);
        let s = subs[m - 1];
        if q is None || is_infix(q->Some_0, lower_of(s)) {
            r.push(subtask_item(i, (m - 1) as nat, s))
        } else {
            r
        }
    }
}

/// The lines for task `i`: without a filter, or where the task matches, the
/// task and all of its subtasks; where only some subtasks match, the task
/// and those; else nothing.
pub open spec fn task_items(i: nat, t: TaskView, q: Option<Seq<char>>) -> Seq<ItemView> {
    let n = t.subtasks.len();
    if q is None || is_infix(q->Some_0, lower_of(t.text)) {
        seq![task_item(i, t)] + subtask_items(i, t.subtasks, None, n)
    } else if subtask_items(i, t.subtasks, q, n).len() > 0 {
        seq![task_item(i, t)] + subtask_items(i, t.subtasks, q, n)
    } else {
        seq![]
    }
}

pub open spec fn items_upto(tasks: Seq<TaskView>, q: Option<Seq<char>>, n: nat) -> Seq<ItemView>
    decreases n,
{
    if n == 0 {
        seq![]
    } else {
        items_upto(tasks, q, (n - 1) as nat) + task_items((n - 1) as nat, tasks[n - 1], q)
    }
}

/// The lowercase filter, where there is one.
pub open spec fn lowered(filter: Option<&str>) -> Option<Seq<char>> {
    match filter {
        Some(f) => Some(lower_of(f@)),
        None => None,
    }
}

/// One line of the listing, with the task and subtask it stands for.
#[derive(Debug)]
pub struct DisplayItem {
    pub task_number: usize,
    pub subtask_index: Option<usize>,
    pub line: String,
}

impl View for DisplayItem {
    type V = ItemView;

    open spec fn view(&self) -> ItemView {
        ItemView {
            task_number: self.task_number as nat,
            subtask_index: match self.subtask_index {
                Some(j) => Some(j as nat),
                None => None,
            },
            line: self.line@,
        }
    }
}

pub open spec fn items_view(v: Seq<DisplayItem>) -> Seq<ItemView> {
    v.map_values(|d: DisplayItem| d@)
}

fn task_label_string(number: usize, text: &String) -> (r: String)
    ensures
        r@ == task_label(number as nat, text@),
{
    let d = decimal_string(number);
    let mut r = String::new();
    let dv = chars_of(d.as_str());
    if dv.len() == 1 {
        push_char(&mut r, ' ');
        push_char(&mut r, ' ');
    } else if dv.len() == 2 {
        push_char(&mut r, ' ');
    }
    r.append(d.as_str());
    push_char(&mut r, '.');
    push_char(&mut r, ' ');
    r.append(text.as_str());
    r
}

fn subtask_label_string(j: usize, text: &String) -> (r: String)
    ensures
        r@ == subtask_label(j as nat, text@),
{
    let mut r = String::new();
    push_char(&mut r, ' ');
    push_char(&mut r, ' ');
    push_char(&mut r, ' ');
    push_char(&mut r, ' ');
    push_char(&mut r, ' ');
    let c = if j < 26 {
        ((j as u8) + 97) as char
    } else {
        '?'
    };
    push_char(&mut r, c);
    push_char(&mut r, '.');
    push_char(&mut r, ' ');
    r.append(text.as_str());
    r
}

fn push_item(items: &mut Vec<DisplayItem>, item: DisplayItem)
    ensures
        items_view(final(items)@) == items_view(old(items)@).push(item@),
{
    items.push(item);
    assert(items_view(items@) =~= items_view(old(items)@).push(item@));
}

/// The lines of the listing, in document order. With a filter, a task is
/// shown with all its subtasks where its text contains the filter, ignoring
/// case, and with just the matching subtasks where only those do.
pub fn display_items(todo_file: &TodoFile, filter: Option<&str>) -> (r: Vec<DisplayItem>)
    ensures
        items_view(r@) == items_upto(todo_file@.tasks, lowered(filter), todo_file@.tasks.len()),
{
    let ghost tasks = todo_file@.tasks;
    let ghost q = lowered(filter);
    let low: Option<String> = match filter {
        Some(f) => Some(lowercase(f)),
        None => None,
    };
    let mut items: Vec<DisplayItem> = Vec::new();
    assert(items_view(items@) =~= Seq::<ItemView>::empty());
    let n = todo_file.tasks.len();
    let mut i: usize = 0;
    while i < n
        invariant
            i <= n == todo_file.tasks.len(),
            tasks == todo_file@.tasks,
            q == match low {
                Some(l) => Some(l@),
                None => None::<Seq<char>>,
            },
            items_view(items@) == items_upto(tasks, q, i as nat),
        decreases n - i,
    {
        let task = &todo_file.tasks[i];
        let ghost t = tasks[i as int];
        assert(t == task@);
        let m = task.subtasks.len();
        let ghost before = items_view(items@);
        let whole = match &low {
            None => true,
            Some(l) => {
                let lt = lowercase(task.text.as_str());
                contains_text(lt.as_str(), l.as_str())
            },
        };
        // The matching subtasks, collected first: the task line goes before them.
        let mut subs: Vec<DisplayItem> = Vec::new();
        let ghost sq = if whole { None::<Seq<char>> } else { q };
        assert(items_view(subs@) =~= Seq::<ItemView>::empty());
        let mut j: usize = 0;
        while j < m
            invariant
                j <= m == task.subtasks.len(),
                t == task@,
                i < n,
                whole ==> sq is None,
                !whole ==> sq == q && q == match low {
                    Some(l) => Some(l@),
                    None => None::<Seq<char>>,
                },
                !whole ==> low is Some,
                items_view(subs@) == subtask_items(i as nat, t.subtasks, sq, j as nat),
            decreases m - j,
        {
            let s = &task.subtasks[j];
            assert(s@ == t.subtasks[j as int]);
            let shown = if whole {
                true
            } else {
                match &low {
                    Some(l) => {
                        let ls = lowercase(s.as_str());
                        contains_text(ls.as_str(), l.as_str())
                    },
                    None => true,
                }
            };
            if shown {
                let line = subtask_label_string(j, s);
                push_item(&mut subs, DisplayItem { task_number: i + 1, subtask_index: Some(j), line });
            }
            j = j + 1;
        }
        if whole || subs.len() > 0 {
            let line = task_label_string(i + 1, &task.text);
            push_item(&mut items, DisplayItem { task_number: i + 1, subtask_index: None, line });
            let mut k: usize = 0;
            let ghost head = items_view(items@);
            while k < subs.len()
                invariant
                    k <= subs.len(),
                    items_view(items@) == head + items_view(subs@).take(k as int),
                decreases subs.len() - k,
            {
                let d = DisplayItem {
                    task_number: subs[k].task_number,
                    subtask_index: subs[k].subtask_index,
                    line: subs[k].line.clone(),
                };
                assert(d@ == items_view(subs@)[k as int]);
                push_item(&mut items, d);
                assert(items_view(subs@).take(k + 1) =~= items_view(subs@).take(k as int).push(d@));
                k = k + 1;
            }
            assert(items_view(subs@).take(k as int) =~= items_view(subs@));
        }
        assert(items_view(items@) =~= items_upto(tasks, q, (i + 1) as nat));
        i = i + 1;
    }
    items
}

/// How many of `total` lines a listing shows: all of them, or at most `num`.
pub fn shown_count(total: usize, num: usize, all: bool) -> (r: usize)
    ensures
        r == if all || num >= total { total } else { num },
{
    if all || num >= total {
        total
    } else {
        num
    }
}

/// The level, 0 to 5, of a color component on the 6x6x6 cube of the
/// 256-color palette.
pub open spec fn cube_level(c: u8) -> int {
    if c < 48 {
        0
    } else if c < 115 {
        1
    } else {
        (c - 55) / 40
    }
}

/// The palette index of the cube color nearest to `(r, g, b)`.
pub open spec fn cube_index(r: u8, g: u8, b: u8) -> int {
    16 + 36 * cube_level(r) + 6 * cube_level(g) + cube_level(b)
}

fn level(c: u8) -> (r: u8)
    ensures
        r == cube_level(c),
        r <= 5,
{
    if c < 48 {
        0
    } else if c < 115 {
        1
    } else {
        (c - 55) / 40
    }
}

/// Maps an RGB color to the 256-color palette's 6x6x6 cube.
pub fn rgb_to_256_color(r: u8, g: u8, b: u8) -> (c: u8)
    ensures
        c == cube_index(r, g, b),
        16 <= c <= 231,
{
    16 + 36 * level(r) + 6 * level(g) + level(b)
}

/// The field after the first `;` of `s`, up to the next one.
pub open spec fn second_field(s: Seq<char>) -> Option<Seq<char>> {
    let i = index_of(s, ';');
    if i < s.len() {
        let rest = s.skip(i + 1 as int);
        Some(rest.take(index_of(rest, ';') as int))
    } else {
        None
    }
}

/// A `u8` as `str::parse` reads it: an optional `+`, then decimal digits
/// whose value is at most 255.
pub open spec fn parse_u8(s: Seq<char>) -> Option<u8> {
    let d = if s.len() > 0 && s[0] == '+' {
        s.drop_first()
    } else {
        s
    };
    if d.len() > 0 && all_digits(d) && digits_value(d) <= 255 {
        Some(digits_value(d) as u8)
    } else {
        None
    }
}

/// Whether a `COLORFGBG` value (`"fg;bg"`) leaves the background dark: it
/// does unless its background is a number from 8 up.
pub open spec fn dark_background(colorfgbg: Option<Seq<char>>) -> bool {
    match colorfgbg {
        Some(c) => match second_field(c) {
            Some(f) => match parse_u8(f) {
                Some(bg) => bg < 8,
                None => true,
            },
            None => true,
        },
        None => true,
    }
}

/// The first index from `from` on where `v` holds `c`, or `v.len()`.
fn find_char(v: &Vec<char>, from: usize, c: char) -> (r: usize)
    requires
        from <= v.len(),
    ensures
        from <= r <= v.len(),
        r < v.len() ==> v@[r as int] == c,
        forall|k: int| from <= k < r ==> v@[k] != c,
{
    let mut i = from;
    while i < v.len() && v[i] != c
        invariant
            from <= i <= v.len(),
            forall|k: int| from <= k < i ==> v@[k] != c,
        decreases v.len() - i,
    {
        i = i + 1;
    }
    i
}

/// Reads `v[a..b]` as `str::parse::<u8>` does.
fn parse_u8_range(v: &Vec<char>, a: usize, b: usize) -> (r: Option<u8>)
    requires
        a <= b <= v.len(),
    ensures
        r == parse_u8(v@.subrange(a as int, b as int)),
{
    let ghost f = v@.subrange(a as int, b as int);
    let mut start = a;
    if start < b && v[a] == '+' {
        start = a + 1;
    }
    let ghost d = v@.subrange(start as int, b as int);
    assert(d =~= if f.len() > 0 && f[0] == '+' { f.drop_first() } else { f });
    if start == b {
        return None;
    }
    let mut value: u32 = 0;
    let mut k = start;
    while k < b
        invariant
            start <= k <= b <= v.len(),
            d == v@.subrange(start as int, b as int),
            f == v@.subrange(a as int, b as int),
            d == (if f.len() > 0 && f[0] == '+' { f.drop_first() } else { f }),
            all_digits(v@.subrange(start as int, k as int)),
            value <= 256,
            value <= 255 ==> value == digits_value(v@.subrange(start as int, k as int)),
            value > 255 ==> digits_value(v@.subrange(start as int, k as int)) > 255,
        decreases b - k,
    {
        let ch = v[k];
        if !('0' <= ch && ch <= '9') {
            assert(!all_digits(d)) by {
                assert(d[k - start] == ch);
            }
            return None;
        }
        let ghost prev = v@.subrange(start as int, k as int);
        assert(v@.subrange(start as int, k + 1) =~= prev.push(ch));
        assert(prev.push(ch).drop_last() =~= prev);
        if value <= 255 {
            let next = value * 10 + ((ch as u32) - 48);
            value = if next > 255 { 256 } else { next };
        }
        k = k + 1;
    }
    assert(v@.subrange(start as int, k as int) == d);
    if value > 255 {
        return None;
    }
    Some(value as u8)
}

/// The bounds of the second `;`-separated field of `v`, if there is one.
fn second_field_range(v: &Vec<char>) -> (r: Option<(usize, usize)>)
    ensures
        match second_field(v@) {
            Some(f) => r is Some && r->Some_0.0 <= r->Some_0.1 <= v.len() && f == v@.subrange(
                r->Some_0.0 as int,
                r->Some_0.1 as int,
            ),
            None => r is None,
        },
{
    let i = find_char(v, 0, ';');
    proof {
        lemma_index_of_at(v@, ';', i as int);
    }
    if i == v.len() {
        return None;
    }
    let j = find_char(v, i + 1, ';');
    let ghost rest = v@.skip(i + 1);
    proof {
        lemma_index_of_at(rest, ';', j - i - 1);
        assert(rest.take(j - i - 1) =~= v@.subrange(i + 1, j as int));
    }
    Some((i + 1, j))
}

/// Reads the background color from a `COLORFGBG` value. Where the value is
/// missing or unreadable the terminal is taken as dark, which is also what
/// every other probe (`TERM` naming a dark theme, a terminal program that
/// defaults to dark) and the final default answer.
pub fn is_dark_terminal(colorfgbg: Option<&str>) -> (r: bool)
    ensures
        r == dark_background(match colorfgbg {
            Some(c) => Some(c@),
            None => None,
        }),
{
    match colorfgbg {
        Some(c) => {
            let v = chars_of(c);
            match second_field_range(&v) {
                Some((a, b)) => match parse_u8_range(&v, a, b) {
                    Some(bg) => bg < 8,
                    None => true,
                },
                None => true,
            }
        },
        None => true,
    }
}

/// A key of the interactive review.
#[derive(Debug, Clone, Copy, PartialEq, Eq, Structural)]
pub enum Key {
    Up,
    Down,
    Right,
    Left,
    Enter,
    Quit,
    Prioritize,
    Archive,
    Skip,
    Other,
}

/// Whether a first byte opens an escape sequence, after which two more bytes
/// are read.
pub fn starts_escape(first: u8) -> (r: bool)
    ensures
        r == (first == 27),
{
    first == 27
}

/// The key for a single byte, other than the escape byte.
pub open spec fn key_of_byte(b: u8) -> Key {
    if b == 10 || b == 13 {
        Key::Enter
    } else if b == 113 {
        Key::Quit
    } else if b == 112 {
        Key::Prioritize
    } else if b == 97 {
        Key::Archive
    } else if b == 115 {
        Key::Skip
    } else {
        Key::Other
    }
}

/// The key for the two bytes after an escape: `[A` to `[D` are the arrows.
pub open spec fn key_of_escape(b1: u8, b2: u8) -> Key {
    if b1 != 91 {
        Key::Other
    } else if b2 == 65 {
        Key::Up
    } else if b2 == 66 {
        Key::Down
    } else if b2 == 67 {
        Key::Right
    } else if b2 == 68 {
        Key::Left
    } else {
        Key::Other
    }
}

/// Decodes a key press: `first`, and for an escape sequence the two bytes
/// that follow it.
pub fn decode_key(first: u8, rest: Option<(u8, u8)>) -> (k: Key)
    ensures
        first == 27 && rest is Some ==> k == key_of_escape(rest->Some_0.0, rest->Some_0.1),
        first == 27 && rest is None ==> k == Key::Other,
        first != 27 ==> k == key_of_byte(first),
{
    if first == 27 {
        match rest {
            Some((b1, b2)) => {
                if b1 != 91 {
                    Key::Other
                } else if b2 == 65 {
                    Key::Up
                } else if b2 == 66 {
                    Key::Down
                } else if b2 == 67 {
                    Key::Right
                } else if b2 == 68 {
                    Key::Left
                } else {
                    Key::Other
                }
            },
            None => Key::Other,
        }
    } else if first == 10 || first == 13 {
        Key::Enter
    } else if first == 113 {
        Key::Quit
    } else if first == 112 {
        Key::Prioritize
    } else if first == 97 {
        Key::Archive
    } else if first == 115 {
        Key::Skip
    } else {
        Key::Other
    }
}

} // verus!
