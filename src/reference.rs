//! Task references as users type them: a 1-based task number, optionally
//! followed by one lowercase letter that names a subtask.

use vstd::prelude::*;
use vstd::string::StringExecFns;
use crate::text::{chars_of, decimal_string};

verus! {

/// The largest task number a reference may carry.
pub const MAX_TASK_NUMBER: usize = 10000;

pub open spec fn is_digit(c: char) -> bool {
    '0' <= c && c <= '9'
}

pub open spec fn is_lower(c: char) -> bool {
    'a' <= c && c <= 'z'
}

pub open spec fn all_digits(s: Seq<char>) -> bool {
    forall|i: int| 0 <= i < s.len() ==> is_digit(#[trigger] s[i])
}

/// The number that a run of decimal digits writes.
pub open spec fn digits_value(s: Seq<char>) -> nat
    decreases s.len(),
{
    if s.len() == 0 {
        0
    } else {
        digits_value(s.drop_last()) * 10 + ((s.last() as u32) - 48) as nat
    }
}

/// Whether the reference names a subtask: it ends in a lowercase letter.
pub open spec fn has_letter(s: Seq<char>) -> bool {
    s.len() > 0 && is_lower(s.last())
}

/// The part of a reference before its letter.
pub open spec fn number_part(s: Seq<char>) -> Seq<char> {
    if has_letter(s) {
        s.drop_last()
    } else {
        s
    }
}

/// `s` matches `[0-9]+[a-z]?` and its number lies in `1..=MAX_TASK_NUMBER`.
pub open spec fn is_valid_ref(s: Seq<char>) -> bool {
    let d = number_part(s);
    &&& d.len() > 0
    &&& all_digits(d)
    &&& 1 <= digits_value(d) <= MAX_TASK_NUMBER
}

/// The reference that a valid input denotes.
pub open spec fn ref_of(s: Seq<char>) -> TaskRef {
    TaskRef {
        task_index: (digits_value(number_part(s)) - 1) as usize,
        subtask_index: if has_letter(s) {
            Some(((s.last() as u32) - 97) as usize)
        } else {
            None
        },
    }
}

/// An address in a todo document: a task, and possibly one of its subtasks.
#[derive(Debug, Clone, Copy, PartialEq, Eq)]
pub struct TaskRef {
    pub task_index: usize,
    pub subtask_index: Option<usize>,
}

proof fn lemma_digits_value_push(s: Seq<char>, c: char)
    ensures
        digits_value(s.push(c)) == digits_value(s) * 10 + ((c as u32) - 48) as nat,
{
    assert(s.push(c).drop_last() =~= s);
}

fn message(prefix: &str, tail: &str) -> (r: String) {
    let mut r = prefix.to_owned();
    r.append(tail);
    r
}

impl TaskRef {
    /// Resolves a reference such as `"3"` or `"12a"`. Task numbers are
    /// 1-based; the letters `a..z` stand for subtasks `0..25`.
    pub fn parse(input: &str) -> (r: Result<TaskRef, String>)
        ensures
            r is Ok <==> is_valid_ref(input@),
            r is Ok ==> r->Ok_0 == ref_of(input@),
    {
        let chars = chars_of(input);
        let n = chars.len();
        if n == 0 {
            return Err("Empty task reference".to_owned());
        }
        let has_sub = 'a' <= chars[n - 1] && chars[n - 1] <= 'z';
        let end = if has_sub { n - 1 } else { n };
        let ghost s = input@;
        let ghost d = number_part(s);
        assert(d =~= s.subrange(0, end as int));
        // The value saturates just above the largest accepted number.
        let mut value: usize = 0;
        let mut i: usize = 0;
        while i < end
            invariant
                0 <= i <= end <= n,
                n == s.len(),
                chars@ == s,
                d == s.subrange(0, end as int),
                d == number_part(s),
                s == input@,
                all_digits(s.subrange(0, i as int)),
                value <= MAX_TASK_NUMBER + 1,
                value <= MAX_TASK_NUMBER ==> value == digits_value(s.subrange(0, i as int)),
                value > MAX_TASK_NUMBER ==> digits_value(s.subrange(0, i as int))
                    > MAX_TASK_NUMBER,
            decreases end - i,
        {
            let c = chars[i];
            if !('0' <= c && c <= '9') {
                assert(!all_digits(d)) by {
                    assert(d[i as int] == c);
                }
                if 'a' <= c && c <= 'z' {
                    if i == 0 {
                        return Err(message("Task reference must start with a number: ", input));
                    }
                    return Err(message("Multiple subtask letters not allowed: ", input));
                }
                let mut m = "Invalid character in task reference: ".to_owned();
                let mut one = String::new();
                crate::text::push_char(&mut one, c);
                m.append(one.as_str());
                return Err(m);
            }
            let ghost prev = s.subrange(0, i as int);
            assert(s.subrange(0, i + 1) =~= prev.push(c));
            proof {
                lemma_digits_value_push(prev, c);
            }
            if value <= MAX_TASK_NUMBER {
                let next = value * 10 + ((c as u32) - 48) as usize;
                value = if next > MAX_TASK_NUMBER { MAX_TASK_NUMBER + 1 } else { next };
            }
            i = i + 1;
        }
        if end == 0 {
            return Err(message("Task reference must start with a number: ", input));
        }
        assert(s.subrange(0, i as int) == d);
        if value == 0 {
            return Err("Task number must be at least 1".to_owned());
        }
        if value > MAX_TASK_NUMBER {
            let mut m = "Task number too large: ".to_owned();
            m.append(input);
            m.append(". Maximum is ");
            let max = decimal_string(MAX_TASK_NUMBER);
            m.append(max.as_str());
            return Err(m);
        }
        let subtask_index = if has_sub {
            Some(((chars[n - 1] as u32) - 97) as usize)
        } else {
            None
        };
        Ok(TaskRef { task_index: value - 1, subtask_index })
    }

    pub fn is_subtask(&self) -> (r: bool)
        ensures
            r == self.subtask_index is Some,
    {
        self.subtask_index.is_some()
    }
}

} // verus!
