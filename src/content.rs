//! Operations on plain line-per-item content, the format that predates the
//! Markdown document: prepend an item, move items to the top, take items
//! out.

use vstd::prelude::*;
use vstd::string::StringExecFns;
use crate::engine::{dedup_first, dedup_indices, gather, holds_index, lemma_dedup_within,
    lemma_rest_within, moved_first, moved_first_indices, rest_indices};
use crate::model::strings_view;
use crate::text::{
    chars_of, decimal, decimal_string, join_lines, lemma_join_lines_push, push_char, string_of,
    trim, trim_end, trim_end_len, trim_range,
};

verus! {

/// `text` on the first line, then the existing content without its trailing
/// white space; only `text` and a line break where the content is blank.
pub open spec fn prepended(existing: Seq<char>, text: Seq<char>) -> Seq<char> {
    if trim(existing).len() == 0 {
        text.push('\n')
    } else {
        text.push('\n') + trim_end(existing)
    }
}

/// Puts `text` in front of the existing content.
pub fn add_entry_to_content(existing_content: &str, text: &str) -> (r: String)
    ensures
        r@ == prepended(existing_content@, text@),
{
    let v = chars_of(existing_content);
    let (a, b) = trim_range(&v, 0, v.len());
    assert(v@.subrange(0, v.len() as int) =~= v@);
    let mut r = text.to_owned();
    push_char(&mut r, '\n');
    if a == b {
        return r;
    }
    let e = trim_end_len(&v, v.len());
    let rest = string_of(&v, 0, e);
    r.append(rest.as_str());
    r
}

/// The item numbers are 1-based and at most `n`.
pub open spec fn numbers_ok(numbers: Seq<usize>, n: nat) -> bool {
    forall|k: int| 0 <= k < numbers.len() ==> 1 <= #[trigger] numbers[k] <= n
}

pub open spec fn invalid_number_message(num: usize, n: nat) -> Seq<char> {
    "Invalid item number: "@ + decimal(num as nat) + ". Valid range: 1-"@ + decimal(n)
}

/// The message for the first number outside `1..=n`.
pub open spec fn is_first_bad_number(m: Seq<char>, numbers: Seq<usize>, n: nat) -> bool {
    exists|k: int|
        0 <= k < numbers.len() && !(1 <= #[trigger] numbers[k] <= n) && (forall|i: int|
            0 <= i < k ==> 1 <= #[trigger] numbers[i] <= n) && m == invalid_number_message(
            numbers[k],
            n,
        )
}

/// The 0-based indices of 1-based numbers.
pub open spec fn indices_of(numbers: Seq<usize>) -> Seq<usize> {
    numbers.map_values(|x: usize| (x - 1) as usize)
}

/// The indices below `n` that `sel` holds, ascending.
pub open spec fn chosen_indices(sel: Seq<usize>, n: nat) -> Seq<usize>
    decreases n,
{
    if n == 0 {
        seq![]
    } else {
        let r = chosen_indices(sel, (n - 1) as nat);
        if sel.contains((n - 1) as usize) {
            r.push((n - 1) as usize)
        } else {
            r
        }
    }
}

/// Checks the numbers and turns them into indices.
fn checked_indices(numbers: &[usize], n: usize) -> (r: Result<Vec<usize>, String>)
    ensures
        r is Ok <==> numbers_ok(numbers@, n as nat),
        r is Ok ==> r->Ok_0@ == indices_of(numbers@),
        r is Err ==> is_first_bad_number(r->Err_0@, numbers@, n as nat),
{
    let mut out: Vec<usize> = Vec::new();
    let mut k: usize = 0;
    while k < numbers.len()
        invariant
            k <= numbers.len(),
            forall|i: int| 0 <= i < k ==> 1 <= #[trigger] numbers@[i] <= n,
            out@ == indices_of(numbers@.take(k as int)),
        decreases numbers.len() - k,
    {
        let num = numbers[k];
        if num == 0 || num > n {
            let mut m = "Invalid item number: ".to_owned();
            m.append(decimal_string(num).as_str());
            m.append(". Valid range: 1-");
            m.append(decimal_string(n).as_str());
            assert(m@ =~= invalid_number_message(num, n as nat));
            return Err(m);
        }
        out.push(num - 1);
        assert(out@ =~= indices_of(numbers@.take(k + 1)));
        k = k + 1;
    }
    assert(numbers@.take(k as int) =~= numbers@);
    Ok(out)
}

/// Copies of the strings at the given indices.
fn gather_strings(items: &[String], idx: &Vec<usize>) -> (r: Vec<String>)
    requires
        forall|i: int| 0 <= i < idx.len() ==> #[trigger] idx@[i] < items.len(),
    ensures
        strings_view(r@) == gather(strings_view(items@), idx@),
{
    let mut r: Vec<String> = Vec::new();
    let mut k: usize = 0;
    while k < idx.len()
        invariant
            k <= idx.len(),
            forall|i: int| 0 <= i < idx.len() ==> #[trigger] idx@[i] < items.len(),
            strings_view(r@) == gather(strings_view(items@), idx@.take(k as int)),
        decreases idx.len() - k,
    {
        let s = items[idx[k]].clone();
        let ghost before = r@;
        r.push(s);
        assert(r@ =~= before.push(s));
        assert(strings_view(r@) =~= strings_view(before).push(s@));
        assert(strings_view(r@) =~= gather(strings_view(items@), idx@.take(k + 1)));
        k = k + 1;
    }
    assert(idx@.take(k as int) =~= idx@);
    r
}

/// The items, one per line, each ended by a line break.
fn join_items(items: &Vec<String>) -> (r: String)
    ensures
        r@ == join_lines(strings_view(items@)),
{
    let mut r = String::new();
    let mut k: usize = 0;
    assert(strings_view(items@).take(0) =~= Seq::<Seq<char>>::empty());
    while k < items.len()
        invariant
            k <= items.len(),
            r@ == join_lines(strings_view(items@).take(k as int)),
        decreases items.len() - k,
    {
        let ghost ls = strings_view(items@).take(k as int);
        r.append(items[k].as_str());
        push_char(&mut r, '\n');
        proof {
            lemma_join_lines_push(ls, items@[k as int]@);
            assert(ls.push(items@[k as int]@) =~= strings_view(items@).take(k + 1));
        }
        k = k + 1;
    }
    assert(strings_view(items@).take(k as int) =~= strings_view(items@));
    r
}

proof fn lemma_indices_within(numbers: Seq<usize>, n: nat)
    requires
        numbers_ok(numbers, n),
    ensures
        forall|i: int| 0 <= i < indices_of(numbers).len() ==> #[trigger] indices_of(numbers)[i] < n,
{
    assert forall|i: int| 0 <= i < indices_of(numbers).len() implies #[trigger] indices_of(
        numbers,
    )[i] < n by {
        assert(1 <= numbers[i] <= n);
    }
}

/// Moves the numbered lines (1-based) to the top, in the order first named;
/// the others follow in their order. Returns the new content and the moved
/// lines.
pub fn prioritize_items_in_content(lines: &[String], numbers: &[usize]) -> (r: Result<
    (String, Vec<String>),
    String,
>)
    ensures
        r is Ok <==> numbers_ok(numbers@, lines@.len()),
        r is Err ==> is_first_bad_number(r->Err_0@, numbers@, lines@.len()),
        r is Ok ==> {
            let items = strings_view(lines@);
            let order = dedup_first(indices_of(numbers@));
            &&& r->Ok_0.0@ == join_lines(gather(items, moved_first(order, items.len())))
            &&& strings_view(r->Ok_0.1@) == gather(items, order)
        },
{
    let n = lines.len();
    let idx = match checked_indices(numbers, n) {
        Ok(v) => v,
        Err(m) => {
            return Err(m);
        },
    };
    let order = dedup_indices(&idx);
    proof {
        lemma_indices_within(numbers@, n as nat);
        lemma_dedup_within(idx@);
        assert forall|i: int| 0 <= i < order.len() implies #[trigger] order@[i] < n by {
            let k = choose|k: int| 0 <= k < idx@.len() && idx@[k] == order@[i];
        }
        lemma_rest_within(order@, n as nat);
    }
    let all = moved_first_indices(&order, n);
    assert forall|i: int| 0 <= i < all.len() implies #[trigger] all@[i] < n by {
        if i >= order.len() {
            assert(all@[i] == rest_indices(order@, n as nat)[i - order.len()]);
        }
    }
    let moved = gather_strings(lines, &order);
    let new_lines = gather_strings(lines, &all);
    let content = join_items(&new_lines);
    Ok((content, moved))
}

/// The indices below `n` that `sel` holds, and those it does not, both
/// ascending.
fn split_indices(sel: &Vec<usize>, n: usize) -> (r: (Vec<usize>, Vec<usize>))
    ensures
        r.0@ == chosen_indices(sel@, n as nat),
        r.1@ == rest_indices(sel@, n as nat),
{
    let mut chosen: Vec<usize> = Vec::new();
    let mut rest: Vec<usize> = Vec::new();
    let mut i: usize = 0;
    while i < n
        invariant
            i <= n,
            chosen@ == chosen_indices(sel@, i as nat),
            rest@ == rest_indices(sel@, i as nat),
        decreases n - i,
    {
        if holds_index(sel, i) {
            chosen.push(i);
        } else {
            rest.push(i);
        }
        i = i + 1;
    }
    (chosen, rest)
}

proof fn lemma_chosen_within(sel: Seq<usize>, n: nat)
    requires
        n <= usize::MAX + 1,
    ensures
        forall|i: int| 0 <= i < chosen_indices(sel, n).len() ==> #[trigger] chosen_indices(sel, n)[i] < n,
    decreases n,
{
    if n > 0 {
        lemma_chosen_within(sel, (n - 1) as nat);
        let r = chosen_indices(sel, (n - 1) as nat);
        assert forall|i: int| 0 <= i < chosen_indices(sel, n).len() implies #[trigger] chosen_indices(
            sel,
            n,
        )[i] < n by {
            if i < r.len() {
                assert(chosen_indices(sel, n)[i] == r[i]);
            }
        }
    }
}

/// Takes the numbered lines (1-based) out. Returns the remaining content and
/// the lines taken, both in their original order.
pub fn archive_items_in_content(lines: &[String], numbers: &[usize]) -> (r: Result<
    (String, Vec<String>),
    String,
>)
    ensures
        r is Ok <==> numbers_ok(numbers@, lines@.len()),
        r is Err ==> is_first_bad_number(r->Err_0@, numbers@, lines@.len()),
        r is Ok ==> {
            let items = strings_view(lines@);
            let sel = indices_of(numbers@);
            &&& r->Ok_0.0@ == join_lines(gather(items, rest_indices(sel, items.len())))
            &&& strings_view(r->Ok_0.1@) == gather(items, chosen_indices(sel, items.len()))
        },
{
    let n = lines.len();
    let idx = match checked_indices(numbers, n) {
        Ok(v) => v,
        Err(m) => {
            return Err(m);
        },
    };
    let (chosen, rest) = split_indices(&idx, n);
    proof {
        lemma_chosen_within(idx@, n as nat);
        lemma_rest_within(idx@, n as nat);
    }
    let taken = gather_strings(lines, &chosen);
    let remaining = gather_strings(lines, &rest);
    let content = join_items(&remaining);
    Ok((content, taken))
}

} // verus!
