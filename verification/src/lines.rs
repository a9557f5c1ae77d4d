//! The unit source for line-oriented processing: splitting a byte stream
//! into lines, each keeping its original terminator.

use vstd::prelude::*;

verus! {

/// The line feed byte.
pub open spec fn line_feed() -> u8 {
    10
}

/// The first line of a byte sequence: everything up to and including the
/// first line feed, or the whole sequence when it holds none.
pub open spec fn first_line(s: Seq<u8>) -> Seq<u8>
    decreases s.len(),
{
    if s.len() == 0 {
        Seq::<u8>::empty()
    } else if s[0] == line_feed() {
        seq![s[0]]
    } else {
        seq![s[0]] + first_line(s.skip(1))
    }
}

/// The lines of a byte sequence, in order; a trailing fragment without a
/// terminator is a line of its own, and empty input has no lines.
pub open spec fn lines_of(s: Seq<u8>) -> Seq<Seq<u8>>
    decreases s.len(),
    via lines_of_decreases
{
    if s.len() == 0 {
        Seq::<Seq<u8>>::empty()
    } else {
        seq![first_line(s)] + lines_of(s.skip(first_line(s).len() as int))
    }
}

#[via_fn]
proof fn lines_of_decreases(s: Seq<u8>) {
    if s.len() > 0 {
        lemma_first_line_len(s);
    }
}

/// A non-empty sequence has a non-empty first line, no longer than itself.
pub proof fn lemma_first_line_len(s: Seq<u8>)
    ensures
        s.len() == 0 ==> first_line(s).len() == 0,
        s.len() > 0 ==> 1 <= first_line(s).len() <= s.len(),
    decreases s.len(),
{
    if s.len() > 0 && s[0] != line_feed() {
        lemma_first_line_len(s.skip(1));
    }
}

/// When the first line feed sits at index `k`, the first line is the prefix
/// through it.
proof fn lemma_first_line_upto(s: Seq<u8>, k: int)
    requires
        0 <= k < s.len(),
        s[k] == line_feed(),
        forall|j: int| 0 <= j < k ==> s[j] != line_feed(),
    ensures
        first_line(s) == s.take(k + 1),
    decreases k,
{
    if k == 0 {
        assert(first_line(s) =~= s.take(1));
    } else {
        lemma_first_line_upto(s.skip(1), k - 1);
        assert(seq![s[0]] + s.skip(1).take(k) =~= s.take(k + 1));
    }
}

/// Without any line feed, the first line is the whole sequence.
proof fn lemma_first_line_whole(s: Seq<u8>)
    requires
        forall|j: int| 0 <= j < s.len() ==> s[j] != line_feed(),
    ensures
        first_line(s) == s,
    decreases s.len(),
{
    if s.len() > 0 {
        lemma_first_line_whole(s.skip(1));
        assert(seq![s[0]] + s.skip(1) =~= s);
    }
}

/// Reads a byte stream line by line, yielding each line with its
/// terminator.
pub struct LineIterator {
    data: Vec<u8>,
    pos: usize,
}

impl LineIterator {
    /// The bytes not yet handed out.
    pub closed spec fn remaining(&self) -> Seq<u8> {
        self.data@.skip(self.pos as int)
    }

    pub closed spec fn wf(&self) -> bool {
        self.pos <= self.data@.len()
    }

    /// An iterator over the lines of the given bytes.
    pub fn new(data: Vec<u8>) -> (it: Self)
        ensures
            it.wf(),
            it.remaining() == data@,
    {
        let it = LineIterator { data, pos: 0 };
        assert(it.remaining() =~= it.data@);
        it
    }

    /// The next line, or nothing once the stream is exhausted.
    pub fn next_line(&mut self) -> (r: Option<Vec<u8>>)
        requires
            old(self).wf(),
        ensures
            final(self).wf(),
            match r {
                Some(line) => old(self).remaining().len() > 0 && line@ == first_line(
                    old(self).remaining(),
                ) && final(self).remaining() == old(self).remaining().skip(line@.len() as int),
                None => old(self).remaining().len() == 0 && final(self).remaining() == old(
                    self,
                ).remaining(),
            },
    {
        let ghost rem = self.remaining();
        let n = self.data.len();
        if self.pos == n {
            return None;
        }
        let start = self.pos;
        let mut end = start;
        let mut found = false;
        while end < n && !found
            invariant
                start <= end <= n,
                n == self.data@.len(),
                found ==> end > start && self.data@[end - 1] == line_feed() && (forall|j: int|
                    start <= j < end - 1 ==> self.data@[j] != line_feed()),
                !found ==> forall|j: int| start <= j < end ==> self.data@[j] != line_feed(),
            decreases n - end + if found {
                0int
            } else {
                1int
            },
        {
            if self.data[end] == 10 {
                found = true;
            }
            end = end + 1;
        }
        proof {
            if found {
                assert(forall|j: int| 0 <= j < rem.len() ==> rem[j] == self.data@[start + j]);
                lemma_first_line_upto(rem, end - 1 - start);
            } else {
                assert(forall|j: int| 0 <= j < rem.len() ==> rem[j] == self.data@[start + j]);
                lemma_first_line_whole(rem);
            }
            assert(first_line(rem) =~= self.data@.subrange(start as int, end as int));
        }
        let mut line: Vec<u8> = Vec::new();
        let mut i = start;
        while i < end
            invariant
                start <= i <= end <= self.data@.len(),
                line@ == self.data@.subrange(start as int, i as int),
            decreases end - i,
        {
            line.push(self.data[i]);
            assert(line@ =~= self.data@.subrange(start as int, i + 1 as int));
            i = i + 1;
        }
        self.pos = end;
        assert(self.remaining() =~= rem.skip(line@.len() as int));
        Some(line)
    }
}

/// All the lines of a byte stream, materialised.
pub fn split_lines(data: Vec<u8>) -> (lines: Vec<Vec<u8>>)
    ensures
        lines@.len() == lines_of(data@).len(),
        forall|i: int| 0 <= i < lines@.len() ==> #[trigger] lines@[i]@ == lines_of(data@)[i],
{
    let ghost all = data@;
    let mut it = LineIterator::new(data);
    let mut lines: Vec<Vec<u8>> = Vec::new();
    let ghost mut done: Seq<Seq<u8>> = Seq::empty();
    loop
        invariant
            it.wf(),
            lines@.len() == done.len(),
            forall|i: int| 0 <= i < done.len() ==> #[trigger] lines@[i]@ == done[i],
            done + lines_of(it.remaining()) == lines_of(all),
        ensures
            it.remaining().len() == 0,
            lines@.len() == done.len(),
            forall|i: int| 0 <= i < done.len() ==> #[trigger] lines@[i]@ == done[i],
            done + lines_of(it.remaining()) == lines_of(all),
        decreases it.remaining().len(),
    {
        let ghost rem = it.remaining();
        match it.next_line() {
            Some(line) => {
                proof {
                    lemma_first_line_len(rem);
                }
                lines.push(line);
                proof {
                    done = done.push(line@);
                    assert(done + lines_of(it.remaining()) =~= (done.drop_last() + (seq![
                        first_line(rem),
                    ] + lines_of(rem.skip(first_line(rem).len() as int)))));
                }
            },
            None => {
                break ;
            },
        }
    }
    assert(lines_of(it.remaining()) =~= Seq::<Seq<u8>>::empty());
    assert(done =~= lines_of(all));
    lines
}

} // verus!
