//! The extraction core of the head utility: the first `n` lines, or the
//! first `n` bytes, of one input.

use vstd::prelude::*;

verus! {

/// The first `n` elements of a sequence, or all of it when it is shorter.
pub open spec fn first_n<T>(s: Seq<T>, n: int) -> Seq<T> {
    if n <= 0 {
        Seq::<T>::empty()
    } else if n >= s.len() {
        s
    } else {
        s.take(n)
    }
}

/// The first `count` lines of one input, each keeping its terminator.
pub fn head_lines(lines: Vec<String>, count: usize) -> (out: Vec<String>)
    ensures
        out@ == first_n(lines@, count as int),
{
    let mut out = lines;
    if count < out.len() {
        out.truncate(count);
    }
    assert(out@ =~= first_n(out@, count as int) || count >= out@.len());
    out
}

/// The first `count` bytes of one input.
pub fn head_bytes(bytes: Vec<u8>, count: usize) -> (out: Vec<u8>)
    ensures
        out@ == first_n(bytes@, count as int),
{
    let mut out = bytes;
    if count < out.len() {
        out.truncate(count);
    }
    out
}

} // verus!
