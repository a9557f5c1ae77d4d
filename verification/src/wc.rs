//! The counting core: lines, words, bytes and characters of a text, plus
//! the fixed-width field formatting of the counts.

use vstd::prelude::*;
use vstd::utf8::encode_utf8;

use crate::chars::{chars_string, chars_vec, is_white_space, pad_left, push_spaces, white_space};
use crate::numbers::{dec_digits, push_decimal};

verus! {

/// The counts taken over one input.
#[derive(Debug, PartialEq, Eq, Structural, Clone, Copy)]
pub struct FileInfo {
    pub num_lines: usize,
    pub num_words: usize,
    pub num_bytes: usize,
    pub num_chars: usize,
}

/// A word starts at position `i`: a non-whitespace character at the start of
/// the text or right after a whitespace character.
pub open spec fn word_start_at(s: Seq<char>, i: int) -> bool {
    0 <= i < s.len() && !white_space(s[i]) && (i == 0 || white_space(s[i - 1]))
}

/// How many words start before position `k`.
pub open spec fn word_count_upto(s: Seq<char>, k: int) -> int
    decreases k,
{
    if k <= 0 {
        0
    } else {
        word_count_upto(s, k - 1) + if word_start_at(s, k - 1) {
            1int
        } else {
            0int
        }
    }
}

/// The number of whitespace-separated words in a text.
pub open spec fn word_count(s: Seq<char>) -> int {
    word_count_upto(s, s.len() as int)
}

/// Total UTF-8 bytes over a sequence of lines.
pub open spec fn total_bytes(lines: Seq<String>) -> int
    decreases lines.len(),
{
    if lines.len() == 0 {
        0
    } else {
        total_bytes(lines.drop_last()) + encode_utf8(lines.last()@).len()
    }
}

/// Total characters over a sequence of lines.
pub open spec fn total_chars(lines: Seq<String>) -> int
    decreases lines.len(),
{
    if lines.len() == 0 {
        0
    } else {
        total_chars(lines.drop_last()) + lines.last()@.len()
    }
}

/// Total words over a sequence of lines.
pub open spec fn total_words(lines: Seq<String>) -> int
    decreases lines.len(),
{
    if lines.len() == 0 {
        0
    } else {
        total_words(lines.drop_last()) + word_count(lines.last()@)
    }
}

/// At most every character starts a word.
proof fn lemma_word_count_le(s: Seq<char>, k: int)
    requires
        k <= s.len(),
    ensures
        0 <= word_count_upto(s, k) <= if k <= 0 {
            0
        } else {
            k
        },
    decreases k,
{
    if k > 0 {
        lemma_word_count_le(s, k - 1);
    }
}

/// Every character takes at least one byte of UTF-8.
proof fn lemma_chars_le_bytes(s: Seq<char>)
    ensures
        s.len() <= encode_utf8(s).len(),
    decreases s.len(),
{
    if s.len() > 0 {
        lemma_chars_le_bytes(s.drop_first());
    }
}

/// Count the words of one line.
fn line_words(line: &str) -> (n: usize)
    ensures
        n == word_count(line@),
        n <= line@.len(),
{
    let chars = chars_vec(line);
    let mut n: usize = 0;
    let mut i: usize = 0;
    proof {
        lemma_word_count_le(line@, line@.len() as int);
    }
    while i < chars.len()
        invariant
            chars@ == line@,
            i <= chars@.len(),
            n == word_count_upto(line@, i as int),
            n <= i,
        decreases chars@.len() - i,
    {
        let here_space = is_white_space(chars[i]);
        let starts = if here_space {
            false
        } else if i == 0 {
            true
        } else {
            is_white_space(chars[i - 1])
        };
        if starts {
            n = n + 1;
        }
        i = i + 1;
    }
    n
}

/// Count lines, words, bytes and characters over the lines of one input,
/// each line keeping its original terminator.
pub fn count(lines: &Vec<String>) -> (info: FileInfo)
    requires
        total_bytes(lines@) <= usize::MAX,
    ensures
        info.num_lines == lines@.len(),
        info.num_words == total_words(lines@),
        info.num_bytes == total_bytes(lines@),
        info.num_chars == total_chars(lines@),
{
    let mut num_words: usize = 0;
    let mut num_bytes: usize = 0;
    let mut num_chars: usize = 0;
    let mut i: usize = 0;
    while i < lines.len()
        invariant
            i <= lines@.len(),
            total_bytes(lines@) <= usize::MAX,
            num_bytes == total_bytes(lines@.take(i as int)),
            num_chars == total_chars(lines@.take(i as int)),
            num_words == total_words(lines@.take(i as int)),
            num_chars <= num_bytes,
            num_words <= num_chars,
        decreases lines@.len() - i,
    {
        let line: &String = &lines[i];
        proof {
            lemma_totals_step(lines@, i as int);
            lemma_chars_le_bytes(line@);
            lemma_word_count_le(line@, line@.len() as int);
            lemma_total_bytes_prefix_le(lines@, i + 1);
        }
        let bytes = line.as_str().len();
        let words = line_words(line.as_str());
        let chars = chars_vec(line.as_str());
        num_bytes = num_bytes + bytes;
        num_words = num_words + words;
        num_chars = num_chars + chars.len();
        i = i + 1;
    }
    assert(lines@.take(lines@.len() as int) =~= lines@);
    FileInfo { num_lines: lines.len(), num_words, num_bytes, num_chars }
}

/// Extending a prefix by one line adds that line's counts.
proof fn lemma_totals_step(lines: Seq<String>, i: int)
    requires
        0 <= i < lines.len(),
    ensures
        total_bytes(lines.take(i + 1)) == total_bytes(lines.take(i)) + encode_utf8(
            lines[i]@,
        ).len(),
        total_chars(lines.take(i + 1)) == total_chars(lines.take(i)) + lines[i]@.len(),
        total_words(lines.take(i + 1)) == total_words(lines.take(i)) + word_count(lines[i]@),
{
    assert(lines.take(i + 1).drop_last() =~= lines.take(i));
    assert(lines.take(i + 1).last() == lines[i]);
}

/// Byte totals only grow with more lines.
proof fn lemma_total_bytes_prefix_le(lines: Seq<String>, i: int)
    requires
        0 <= i <= lines.len(),
    ensures
        total_bytes(lines.take(i)) <= total_bytes(lines),
    decreases lines.len() - i,
{
    if i == lines.len() {
        assert(lines.take(i) =~= lines);
    } else {
        lemma_totals_step(lines, i);
        lemma_total_bytes_prefix_le(lines, i + 1);
    }
}

/// One output column: the count right-aligned in eight columns when its
/// category was asked for, nothing otherwise.
pub fn format_field(value: usize, show: bool) -> (s: String)
    ensures
        show ==> s@ == pad_left(dec_digits(value as nat), 8),
        !show ==> s@ == Seq::<char>::empty(),
{
    if show {
        let mut digits: Vec<char> = Vec::new();
        push_decimal(&mut digits, value as u64);
        let mut out: Vec<char> = Vec::new();
        if digits.len() < 8 {
            push_spaces(&mut out, 8 - digits.len());
        }
        let mut i: usize = 0;
        while i < digits.len()
            invariant
                i <= digits@.len(),
                out@ == if digits@.len() < 8 {
                    crate::chars::spaces((8 - digits@.len()) as nat) + digits@.take(i as int)
                } else {
                    digits@.take(i as int)
                },
            decreases digits@.len() - i,
        {
            out.push(digits[i]);
            assert(out@.drop_last() + seq![digits@[i as int]] =~= out@);
            assert(digits@.take(i as int).push(digits@[i as int]) =~= digits@.take(i + 1));
            i = i + 1;
        }
        assert(digits@.take(digits@.len() as int) =~= digits@);
        assert(out@ == pad_left(digits@, 8));
        chars_string(&out)
    } else {
        let s = String::new();
        s
    }
}

} // verus!
