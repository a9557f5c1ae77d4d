//! The merge core of the line-comparison utility: walking two line
//! sequences in order and classifying each line as only-first, only-second,
//! or common, with selectable columns.

use vstd::prelude::*;
use vstd::string::StringExecFns;
use vstd::utf8::encode_utf8;

use crate::chars::{lower_of, lowercase};

verus! {

/// Lexicographic comparison of byte sequences: negative, zero or positive
/// as the first is below, equal to or above the second.
pub open spec fn lex_cmp(a: Seq<u8>, b: Seq<u8>) -> int
    decreases a.len(),
{
    if a.len() == 0 && b.len() == 0 {
        0
    } else if a.len() == 0 {
        -1
    } else if b.len() == 0 {
        1
    } else if a[0] < b[0] {
        -1
    } else if a[0] > b[0] {
        1
    } else {
        lex_cmp(a.skip(1), b.skip(1))
    }
}

/// The comparison answers zero exactly on equal sequences.
pub proof fn lemma_lex_cmp_eq(a: Seq<u8>, b: Seq<u8>)
    ensures
        (lex_cmp(a, b) == 0) <==> (a == b),
    decreases a.len(),
{
    if a.len() == 0 && b.len() == 0 {
        assert(a =~= b);
    } else if a.len() > 0 && b.len() > 0 && a[0] == b[0] {
        lemma_lex_cmp_eq(a.skip(1), b.skip(1));
        if a.skip(1) == b.skip(1) {
            assert(a =~= b) by {
                assert(forall|i: int| 1 <= i < a.len() ==> a[i] == a.skip(1)[i - 1]);
                assert(forall|i: int| 1 <= i < b.len() ==> b[i] == b.skip(1)[i - 1]);
            }
        }
        if a == b {
            assert(a.skip(1) =~= b.skip(1));
        }
    }
}

/// Swapping the arguments flips the sign of the answer.
pub proof fn lemma_lex_cmp_antisym(a: Seq<u8>, b: Seq<u8>)
    ensures
        lex_cmp(a, b) == -lex_cmp(b, a),
    decreases a.len(),
{
    if a.len() > 0 && b.len() > 0 && a[0] == b[0] {
        lemma_lex_cmp_antisym(a.skip(1), b.skip(1));
    }
}

/// The order is transitive.
pub proof fn lemma_lex_cmp_trans(a: Seq<u8>, b: Seq<u8>, c: Seq<u8>)
    requires
        lex_cmp(a, b) < 0,
        lex_cmp(b, c) < 0,
    ensures
        lex_cmp(a, c) < 0,
    decreases a.len(),
{
    if a.len() == 0 {
        assert(c.len() > 0);
    } else {
        assert(b.len() > 0);
        assert(c.len() > 0);
        if a[0] == b[0] && b[0] == c[0] {
            lemma_lex_cmp_trans(a.skip(1), b.skip(1), c.skip(1));
        }
    }
}

/// Relies on `str`'s `Ord` implementation: strings order lexicographically
/// by their UTF-8 bytes.
#[verifier::external_body]
pub(crate) fn cmp_str(a: &str, b: &str) -> (r: i32)
    ensures
        r == lex_cmp(encode_utf8(a@), encode_utf8(b@)),
{
    match a.cmp(b) {
        std::cmp::Ordering::Less => -1,
        std::cmp::Ordering::Equal => 0,
        std::cmp::Ordering::Greater => 1,
    }
}

/// The lines with case folded, when the comparison is insensitive.
pub fn case_lines(lines: Vec<String>, insensitive: bool) -> (out: Vec<String>)
    ensures
        out@.len() == lines@.len(),
        forall|i: int|
            0 <= i < lines@.len() ==> (#[trigger] out@[i])@ == if insensitive {
                lower_of(lines@[i]@)
            } else {
                lines@[i]@
            },
{
    if !insensitive {
        return lines;
    }
    let mut out: Vec<String> = Vec::new();
    let mut i: usize = 0;
    while i < lines.len()
        invariant
            i <= lines@.len(),
            out@.len() == i,
            forall|j: int| 0 <= j < i ==> (#[trigger] out@[j])@ == lower_of(lines@[j]@),
        decreases lines@.len() - i,
    {
        out.push(lowercase(lines[i].as_str()));
        i = i + 1;
    }
    out
}

/// One output line per merge step: the first file's line in column one, the
/// second file's in column two, common lines in column three, each column
/// indented by the delimiters of the columns shown before it, and shown
/// only when its column is selected.
pub open spec fn comm_merge(
    a: Seq<String>,
    b: Seq<String>,
    show1: bool,
    show2: bool,
    show3: bool,
    delim: Seq<char>,
) -> Seq<Seq<char>>
    decreases a.len() + b.len(),
{
    if a.len() == 0 && b.len() == 0 {
        Seq::<Seq<char>>::empty()
    } else if b.len() == 0 || (a.len() > 0 && lex_cmp(encode_utf8(a[0]@), encode_utf8(b[0]@))
        < 0) {
        seq![
            if show1 {
                a[0]@
            } else {
                Seq::<char>::empty()
            },
        ] + comm_merge(a.skip(1), b, show1, show2, show3, delim)
    } else if a.len() == 0 || lex_cmp(encode_utf8(a[0]@), encode_utf8(b[0]@)) > 0 {
        seq![
            (if show1 {
                delim
            } else {
                Seq::<char>::empty()
            }) + (if show2 {
                b[0]@
            } else {
                Seq::<char>::empty()
            }),
        ] + comm_merge(a, b.skip(1), show1, show2, show3, delim)
    } else {
        seq![
            if show3 {
                (if show1 {
                    delim
                } else {
                    Seq::<char>::empty()
                }) + (if show2 {
                    delim
                } else {
                    Seq::<char>::empty()
                }) + a[0]@
            } else {
                Seq::<char>::empty()
            },
        ] + comm_merge(a.skip(1), b.skip(1), show1, show2, show3, delim)
    }
}

/// Merge two already-cased line sequences, yielding one output line per
/// step as `comm_merge` describes.
pub fn comm_lines(
    lines1: &Vec<String>,
    lines2: &Vec<String>,
    show1: bool,
    show2: bool,
    show3: bool,
    delim: &str,
) -> (out: Vec<String>)
    ensures
        out@.len() == comm_merge(lines1@, lines2@, show1, show2, show3, delim@).len(),
        forall|i: int|
            0 <= i < out@.len() ==> (#[trigger] out@[i])@ == comm_merge(
                lines1@,
                lines2@,
                show1,
                show2,
                show3,
                delim@,
            )[i],
{
    let ghost model = comm_merge(lines1@, lines2@, show1, show2, show3, delim@);
    let n1 = lines1.len();
    let n2 = lines2.len();
    let mut out: Vec<String> = Vec::new();
    let ghost mut done: Seq<Seq<char>> = Seq::empty();
    let mut i1: usize = 0;
    let mut i2: usize = 0;
    proof {
        assert(lines1@.skip(0) =~= lines1@);
        assert(lines2@.skip(0) =~= lines2@);
        assert(Seq::<Seq<char>>::empty() + model =~= model);
    }
    while i1 < n1 || i2 < n2
        invariant
            i1 <= n1 == lines1@.len(),
            i2 <= n2 == lines2@.len(),
            out@.len() == done.len(),
            forall|j: int| 0 <= j < done.len() ==> (#[trigger] out@[j])@ == done[j],
            done + comm_merge(
                lines1@.skip(i1 as int),
                lines2@.skip(i2 as int),
                show1,
                show2,
                show3,
                delim@,
            ) == model,
        decreases n1 - i1 + n2 - i2,
    {
        let ghost rest1 = lines1@.skip(i1 as int);
        let ghost rest2 = lines2@.skip(i2 as int);
        proof {
            if rest1.len() > 0 {
                assert(rest1[0] == lines1@[i1 as int]);
                assert(rest1.skip(1) =~= lines1@.skip(i1 + 1));
            }
            if rest2.len() > 0 {
                assert(rest2[0] == lines2@[i2 as int]);
                assert(rest2.skip(1) =~= lines2@.skip(i2 + 1));
            }
        }
        let which: i32 = if i2 == n2 {
            -1
        } else if i1 == n1 {
            1
        } else {
            cmp_str(lines1[i1].as_str(), lines2[i2].as_str())
        };
        let mut line = String::new();
        if which < 0 {
            if show1 {
                line.append(lines1[i1].as_str());
            }
            i1 = i1 + 1;
        } else if which > 0 {
            if show1 {
                line.append(delim);
            }
            if show2 {
                line.append(lines2[i2].as_str());
            }
            i2 = i2 + 1;
        } else {
            if show3 {
                if show1 {
                    line.append(delim);
                }
                if show2 {
                    line.append(delim);
                }
                line.append(lines1[i1].as_str());
            }
            i1 = i1 + 1;
            i2 = i2 + 1;
        }
        out.push(line);
        proof {
            done = done.push(line@);
            assert(done + comm_merge(
                lines1@.skip(i1 as int),
                lines2@.skip(i2 as int),
                show1,
                show2,
                show3,
                delim@,
            ) =~= done.drop_last() + comm_merge(rest1, rest2, show1, show2, show3, delim@));
        }
    }
    proof {
        assert(comm_merge(
            lines1@.skip(n1 as int),
            lines2@.skip(n2 as int),
            show1,
            show2,
            show3,
            delim@,
        ) =~= Seq::<Seq<char>>::empty());
        assert(done =~= model);
    }
    out
}

} // verus!
