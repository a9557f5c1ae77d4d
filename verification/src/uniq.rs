//! The deduplication core: grouping consecutive lines that are equal after
//! trailing whitespace is removed, keeping each group's first line and its
//! length.

use vstd::prelude::*;

use crate::chars::{chars_string, chars_vec, pad_left, trim_end_chars, trimmed_end};
use crate::numbers::{dec_digits, push_padded_decimal};

verus! {

/// The length of the first group: how many leading lines are equal, after
/// trailing whitespace is removed, to the first line.
pub open spec fn run_len(lines: Seq<String>) -> int
    decreases lines.len(),
{
    if lines.len() == 0 {
        0
    } else if lines.len() > 1 && trimmed_end(lines[1]@) == trimmed_end(lines[0]@) {
        1 + run_len(lines.skip(1))
    } else {
        1
    }
}

/// The first group never outgrows the input, and is non-empty on non-empty
/// input.
pub proof fn lemma_run_len_bounds(lines: Seq<String>)
    ensures
        lines.len() > 0 ==> 1 <= run_len(lines) <= lines.len(),
        lines.len() == 0 ==> run_len(lines) == 0,
    decreases lines.len(),
{
    if lines.len() > 1 && trimmed_end(lines[1]@) == trimmed_end(lines[0]@) {
        lemma_run_len_bounds(lines.skip(1));
    }
}

/// The groups of consecutive equal lines (after trailing-whitespace
/// removal): each group's length paired with its first line, in order.
pub open spec fn uniq_groups(lines: Seq<String>) -> Seq<(int, String)>
    decreases lines.len(),
    via uniq_groups_decreases
{
    if lines.len() == 0 {
        Seq::<(int, String)>::empty()
    } else {
        seq![(run_len(lines), lines[0])] + uniq_groups(lines.skip(run_len(lines)))
    }
}

#[via_fn]
proof fn uniq_groups_decreases(lines: Seq<String>) {
    lemma_run_len_bounds(lines);
}

/// Within the first group, every line is equal to the first after trailing
/// whitespace is removed; the line after the group, if any, is not.
proof fn lemma_run_len_scan(lines: Seq<String>, k: int)
    requires
        1 <= k <= lines.len(),
        forall|t: int| 1 <= t < k ==> trimmed_end((#[trigger] lines[t])@) == trimmed_end(
            lines[0]@,
        ),
        k < lines.len() ==> trimmed_end(lines[k]@) != trimmed_end(lines[0]@),
    ensures
        run_len(lines) == k,
    decreases k,
{
    if k == 1 {
    } else {
        assert(trimmed_end(lines[1]@) == trimmed_end(lines[0]@));
        lemma_run_len_scan(lines.skip(1), k - 1);
    }
}

/// Two character vectors hold the same characters.
fn eq_chars(a: &Vec<char>, b: &Vec<char>) -> (r: bool)
    ensures
        r == (a@ == b@),
{
    if a.len() != b.len() {
        return false;
    }
    let mut i: usize = 0;
    while i < a.len()
        invariant
            i <= a@.len(),
            a@.len() == b@.len(),
            forall|j: int| 0 <= j < i ==> a@[j] == b@[j],
        decreases a@.len() - i,
    {
        if a[i] != b[i] {
            return false;
        }
        i = i + 1;
    }
    assert(a@ =~= b@);
    true
}

/// Group one input's lines: each group of consecutive lines that are equal
/// after trailing whitespace is removed becomes one pair of the group's
/// length and its first line, kept verbatim.
pub fn uniq_pairs(lines: &Vec<String>) -> (out: Vec<(u64, String)>)
    ensures
        out@.len() == uniq_groups(lines@).len(),
        forall|i: int|
            0 <= i < out@.len() ==> (#[trigger] out@[i]).0 as int == uniq_groups(lines@)[i].0
                && out@[i].1 == uniq_groups(lines@)[i].1,
{
    let ghost model = uniq_groups(lines@);
    let mut out: Vec<(u64, String)> = Vec::new();
    let ghost mut done: Seq<(int, String)> = Seq::empty();
    let n = lines.len();
    let mut i: usize = 0;
    assert(lines@.skip(0) =~= lines@);
    assert(Seq::<(int, String)>::empty() + uniq_groups(lines@) =~= uniq_groups(lines@));
    while i < n
        invariant
            i <= n,
            n == lines@.len(),
            out@.len() == done.len(),
            forall|j: int|
                0 <= j < done.len() ==> (#[trigger] out@[j]).0 as int == done[j].0 && out@[j].1
                    == done[j].1,
            done + uniq_groups(lines@.skip(i as int)) == model,
            model == uniq_groups(lines@),
        decreases n - i,
    {
        let ghost rest = lines@.skip(i as int);
        let first = trim_end_chars(&chars_vec(lines[i].as_str()));
        let mut j = i + 1;
        let mut stop = false;
        while j < n && !stop
            invariant
                i < j <= n,
                n == lines@.len(),
                first@ == trimmed_end(lines@[i as int]@),
                forall|t: int|
                    i < t < j - (if stop {
                        1int
                    } else {
                        0int
                    }) ==> trimmed_end((#[trigger] lines@[t])@) == trimmed_end(lines@[i as int]@),
                stop ==> trimmed_end(lines@[j - 1]@) != trimmed_end(lines@[i as int]@),
            decreases n - j + if stop {
                0int
            } else {
                1int
            },
        {
            let cand = trim_end_chars(&chars_vec(lines[j].as_str()));
            if eq_chars(&cand, &first) {
                j = j + 1;
            } else {
                stop = true;
                j = j + 1;
            }
        }
        let run_end = if stop {
            j - 1
        } else {
            j
        };
        proof {
            assert(forall|t: int| 0 <= t < rest.len() ==> rest[t] == lines@[i + t]);
            lemma_run_len_scan(rest, run_end - i);
        }
        out.push(((run_end - i) as u64, lines[i].clone()));
        proof {
            done = done.push((run_end - i, lines@[i as int]));
            assert(rest.skip(run_end - i) =~= lines@.skip(run_end as int));
            assert(done + uniq_groups(lines@.skip(run_end as int)) =~= done.drop_last() + (seq![
                (run_len(rest), rest[0]),
            ] + uniq_groups(rest.skip(run_len(rest)))));
        }
        i = run_end;
    }
    assert(uniq_groups(lines@.skip(n as int)) =~= Seq::<(int, String)>::empty());
    assert(done =~= model);
    out
}

/// One rendered output line: the group's count right-aligned in seven
/// columns and a space when counts are shown, then the group's first line.
pub open spec fn uniq_rendered(groups: Seq<(int, String)>, show_count: bool) -> Seq<Seq<char>>
    decreases groups.len(),
{
    if groups.len() == 0 {
        Seq::<Seq<char>>::empty()
    } else {
        uniq_groups_rendered_head(groups.last(), show_count, uniq_rendered(
            groups.drop_last(),
            show_count,
        ))
    }
}

/// Helper for the rendering recursion: earlier lines followed by one group.
pub open spec fn uniq_groups_rendered_head(
    group: (int, String),
    show_count: bool,
    earlier: Seq<Seq<char>>,
) -> Seq<Seq<char>> {
    earlier + seq![
        if show_count {
            pad_left(dec_digits(group.0 as nat), 7) + seq![' '] + group.1@
        } else {
            group.1@
        },
    ]
}

/// Render one input's groups: each group's first line, prefixed with its
/// count when `show_count` is set.
pub fn uniq_output(lines: &Vec<String>, show_count: bool) -> (out: Vec<String>)
    ensures
        out@.len() == uniq_rendered(uniq_groups(lines@), show_count).len(),
        forall|i: int|
            0 <= i < out@.len() ==> (#[trigger] out@[i])@ == uniq_rendered(
                uniq_groups(lines@),
                show_count,
            )[i],
{
    let pairs = uniq_pairs(lines);
    let ghost groups = uniq_groups(lines@);
    let mut out: Vec<String> = Vec::new();
    let mut i: usize = 0;
    while i < pairs.len()
        invariant
            i <= pairs@.len(),
            pairs@.len() == groups.len(),
            forall|j: int|
                0 <= j < groups.len() ==> (#[trigger] pairs@[j]).0 as int == groups[j].0
                    && pairs@[j].1 == groups[j].1,
            out@.len() == uniq_rendered(groups.take(i as int), show_count).len(),
            forall|j: int|
                0 <= j < out@.len() ==> (#[trigger] out@[j])@ == uniq_rendered(
                    groups.take(i as int),
                    show_count,
                )[j],
        decreases pairs@.len() - i,
    {
        let pair: &(u64, String) = &pairs[i];
        if show_count {
            let mut v: Vec<char> = Vec::new();
            push_padded_decimal(&mut v, pair.0, 7);
            v.push(' ');
            let body = chars_vec(pair.1.as_str());
            crate::chars::push_all(&mut v, &body);
            assert(v@ =~= pad_left(dec_digits(groups[i as int].0 as nat), 7) + seq![' ']
                + groups[i as int].1@);
            out.push(chars_string(&v));
        } else {
            out.push(pair.1.clone());
        }
        proof {
            assert(groups.take(i + 1).drop_last() =~= groups.take(i as int));
            assert(groups.take(i + 1).last() == groups[i as int]);
        }
        i = i + 1;
    }
    assert(groups.take(groups.len() as int) =~= groups);
    out
}

} // verus!
