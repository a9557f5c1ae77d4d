//! The numbering core of the concatenation utility: prefixing lines with a
//! right-aligned line number, either for every line or only for non-blank
//! ones.

use vstd::prelude::*;

use crate::chars::{chars_string, chars_vec, pad_left};
use crate::numbers::{dec_digits, push_padded_decimal};

verus! {

/// One numbered output line: the number right-aligned in six columns, a
/// tab, then the line.
pub open spec fn numbered_line(n: int, l: Seq<char>) -> Seq<char> {
    pad_left(dec_digits(n as nat), 6) + seq!['\t'] + l
}

/// The rendering of a tail of lines, with `next` the number the first
/// numbered line would get: every line numbered, only non-blank lines
/// numbered, or all lines as they are.
pub open spec fn cat_render(lines: Seq<String>, all: bool, nonblank: bool, next: int) -> Seq<
    Seq<char>,
>
    decreases lines.len(),
{
    if lines.len() == 0 {
        Seq::<Seq<char>>::empty()
    } else {
        let l = lines[0]@;
        if all {
            seq![numbered_line(next, l)] + cat_render(lines.skip(1), all, nonblank, next + 1)
        } else if nonblank {
            if l.len() > 0 {
                seq![numbered_line(next, l)] + cat_render(lines.skip(1), all, nonblank, next + 1)
            } else {
                seq![l] + cat_render(lines.skip(1), all, nonblank, next)
            }
        } else {
            seq![l] + cat_render(lines.skip(1), all, nonblank, next)
        }
    }
}

/// Render the lines of one input, numbering them from one: every line when
/// `number_all` is set, only non-blank lines when `number_nonblank` is set
/// (`number_all` wins when both are), unchanged otherwise.
pub fn number_lines(lines: &Vec<String>, number_all: bool, number_nonblank: bool) -> (out: Vec<
    String,
>)
    requires
        lines@.len() < usize::MAX,
    ensures
        out@.len() == cat_render(lines@, number_all, number_nonblank, 1).len(),
        forall|i: int|
            0 <= i < out@.len() ==> #[trigger] out@[i]@ == cat_render(
                lines@,
                number_all,
                number_nonblank,
                1,
            )[i],
{
    let ghost model = cat_render(lines@, number_all, number_nonblank, 1);
    let mut out: Vec<String> = Vec::new();
    let mut counter: usize = 1;
    let mut i: usize = 0;
    proof {
        lemma_cat_render_len(lines@, number_all, number_nonblank, 1);
        assert(lines@.skip(0) =~= lines@);
        assert(model.skip(0) =~= model);
    }
    while i < lines.len()
        invariant
            i <= lines@.len(),
            lines@.len() < usize::MAX,
            1 <= counter <= i + 1,
            model == cat_render(lines@, number_all, number_nonblank, 1),
            model.len() == lines@.len(),
            out@.len() == i,
            cat_render(lines@.skip(i as int), number_all, number_nonblank, counter as int)
                == model.skip(i as int),
            forall|j: int| 0 <= j < i ==> #[trigger] out@[j]@ == model[j],
        decreases lines@.len() - i,
    {
        let ghost rest = lines@.skip(i as int);
        assert(rest[0] == lines@[i as int]);
        assert(rest.skip(1) =~= lines@.skip(i + 1));
        assert(model.skip(i as int)[0] == model[i as int]);
        let ghost c0 = counter as int;
        let line: &String = &lines[i];
        let numbered = if number_all {
            true
        } else if number_nonblank {
            !line.as_str().is_empty()
        } else {
            false
        };
        if numbered {
            let mut v: Vec<char> = Vec::new();
            push_padded_decimal(&mut v, counter as u64, 6);
            v.push('\t');
            let body = chars_vec(line.as_str());
            crate::chars::push_all(&mut v, &body);
            assert(v@ =~= numbered_line(counter as int, lines@[i as int]@));
            out.push(chars_string(&v));
            counter = counter + 1;
        } else {
            out.push(line.clone());
        }
        proof {
            let tl_counter: int = if numbered {
                c0 + 1
            } else {
                c0
            };
            let tl = cat_render(lines@.skip(i + 1), number_all, number_nonblank, tl_counter);
            assert(cat_render(rest, number_all, number_nonblank, c0) == seq![
                model.skip(i as int)[0],
            ] + tl);
            assert(tl =~= model.skip(i as int).skip(1));
            assert(model.skip(i as int).skip(1) =~= model.skip(i + 1));
        }
        i = i + 1;
    }
    assert(model.skip(lines@.len() as int) =~= Seq::<Seq<char>>::empty());
    out
}

/// The rendering has one output line per input line.
proof fn lemma_cat_render_len(lines: Seq<String>, all: bool, nonblank: bool, next: int)
    ensures
        cat_render(lines, all, nonblank, next).len() == lines.len(),
    decreases lines.len(),
{
    if lines.len() > 0 {
        lemma_cat_render_len(lines.skip(1), all, nonblank, next + 1);
        lemma_cat_render_len(lines.skip(1), all, nonblank, next);
    }
}

} // verus!
