//! Character and string helpers shared by the utility cores.
//!
//! Executable code in this crate works on `Vec<char>` wherever it has to
//! index into text; the two conversions between `&str` and `Vec<char>`
//! live here, together with the handful of `std` calls that vstd gives no
//! specification for.

use vstd::prelude::*;
use vstd::string::StringExecFns;

verus! {

broadcast use vstd::string::axiom_spec_iter;

/// Collect the characters of a string slice into a vector.
pub fn chars_vec(s: &str) -> (v: Vec<char>)
    ensures
        v@ == s@,
{
    let mut v: Vec<char> = Vec::new();
    for c in it: s.chars()
        invariant
            it.seq() == s@,
            v@ == it.seq().take(it.index()),
    {
        v.push(c);
    }
    assert(v@ =~= s@);
    v
}

/// Relies on `String::from_iter` over `core::iter::Copied`: collecting
/// characters yields the string with exactly those characters.
#[verifier::external_body]
pub fn chars_string(v: &Vec<char>) -> (s: String)
    ensures
        s@ == v@,
{
    v.iter().copied().collect()
}

/// What `char::is_whitespace` returns; a fixed property of the character.
pub uninterp spec fn white_space(c: char) -> bool;

/// Relies on `char::is_whitespace`: true exactly for the characters with
/// the Unicode `White_Space` property, which include space, tab, line feed
/// and carriage return, and exclude every other printable ASCII character.
#[verifier::external_body]
pub fn is_white_space(c: char) -> (r: bool)
    ensures
        r == white_space(c),
        c == ' ' || c == '\t' || c == '\n' || c == '\r' ==> r,
        '!' <= c && c <= '~' ==> !r,
{
    c.is_whitespace()
}

/// What `str::to_lowercase` returns; a function of the characters alone.
pub uninterp spec fn lower_of(s: Seq<char>) -> Seq<char>;

/// Relies on `str::to_lowercase`: the result depends only on the characters
/// of the input, and an empty input gives an empty result.
#[verifier::external_body]
pub fn lowercase(s: &str) -> (r: String)
    ensures
        r@ == lower_of(s@),
        s@.len() == 0 ==> r@.len() == 0,
{
    s.to_lowercase()
}

/// What `String::from_utf8_lossy` returns; a function of the bytes alone.
pub uninterp spec fn lossy_chars(b: Seq<u8>) -> Seq<char>;

/// Relies on `String::from_utf8_lossy`: the decoding depends only on the
/// bytes, and empty input decodes to nothing.
#[verifier::external_body]
pub fn lossy_string(b: &Vec<u8>) -> (r: String)
    ensures
        r@ == lossy_chars(b@),
        b@.len() == 0 ==> r@.len() == 0,
{
    String::from_utf8_lossy(b).into_owned()
}

/// Concatenate three string slices.
pub fn concat3(a: &str, b: &str, c: &str) -> (r: String)
    ensures
        r@ == a@ + b@ + c@,
{
    let mut r = String::new();
    r.append(a);
    r.append(b);
    r.append(c);
    r
}

/// Words joined with single spaces.
pub open spec fn space_joined(parts: Seq<String>) -> Seq<char>
    decreases parts.len(),
{
    if parts.len() == 0 {
        Seq::<char>::empty()
    } else if parts.len() == 1 {
        parts[0]@
    } else {
        space_joined(parts.drop_last()) + seq![' '] + parts.last()@
    }
}

/// Join words with single spaces.
pub fn join_spaced(parts: &Vec<String>) -> (r: String)
    ensures
        r@ == space_joined(parts@),
{
    let mut r = String::new();
    let mut i: usize = 0;
    while i < parts.len()
        invariant
            i <= parts@.len(),
            r@ == space_joined(parts@.take(i as int)),
        decreases parts@.len() - i,
    {
        if i > 0 {
            r.append(" ");
            proof {
                reveal_strlit(" ");
            }
        }
        r.append(parts[i].as_str());
        proof {
            assert(parts@.take(i + 1).drop_last() =~= parts@.take(i as int));
            assert(parts@.take(i + 1).last() == parts@[i as int]);
        }
        i = i + 1;
    }
    assert(parts@.take(parts@.len() as int) =~= parts@);
    r
}

/// A sequence of `n` space characters.
pub open spec fn spaces(n: nat) -> Seq<char> {
    Seq::new(n, |i: int| ' ')
}

/// `s` padded with spaces on the left up to width `w`; text wider than `w`
/// is kept as it is.
pub open spec fn pad_left(s: Seq<char>, w: nat) -> Seq<char> {
    if s.len() >= w {
        s
    } else {
        spaces((w - s.len()) as nat) + s
    }
}

/// `s` padded with spaces on the right up to width `w`.
pub open spec fn pad_right(s: Seq<char>, w: nat) -> Seq<char> {
    if s.len() >= w {
        s
    } else {
        s + spaces((w - s.len()) as nat)
    }
}

/// `s` without trailing whitespace.
pub open spec fn trimmed_end(s: Seq<char>) -> Seq<char>
    decreases s.len(),
{
    if s.len() == 0 {
        s
    } else if white_space(s.last()) {
        trimmed_end(s.drop_last())
    } else {
        s
    }
}

/// `s` without leading whitespace.
pub open spec fn trimmed_start(s: Seq<char>) -> Seq<char>
    decreases s.len(),
{
    if s.len() == 0 {
        s
    } else if white_space(s[0]) {
        trimmed_start(s.skip(1))
    } else {
        s
    }
}

/// `s` without leading and trailing whitespace.
pub open spec fn trimmed(s: Seq<char>) -> Seq<char> {
    trimmed_start(trimmed_end(s))
}

/// When everything from `k` on is whitespace and the character before `k`
/// is not, trimming the end keeps exactly the first `k` characters.
proof fn lemma_trimmed_end_upto(s: Seq<char>, k: int)
    requires
        0 <= k <= s.len(),
        forall|j: int| k <= j < s.len() ==> white_space(#[trigger] s[j]),
        k > 0 ==> !white_space(s[k - 1]),
    ensures
        trimmed_end(s) == s.take(k),
    decreases s.len(),
{
    if k == s.len() {
        assert(s.take(k) =~= s);
    } else {
        lemma_trimmed_end_upto(s.drop_last(), k);
        assert(s.drop_last().take(k) =~= s.take(k));
    }
}

/// When everything before `m` is whitespace and the character at `m` is
/// not, trimming the start drops exactly the first `m` characters.
proof fn lemma_trimmed_start_from(s: Seq<char>, m: int)
    requires
        0 <= m <= s.len(),
        forall|j: int| 0 <= j < m ==> white_space(#[trigger] s[j]),
        m < s.len() ==> !white_space(s[m]),
    ensures
        trimmed_start(s) == s.skip(m),
    decreases m,
{
    if m == 0 {
        assert(s.skip(0) =~= s);
        if s.len() == 0 {
            assert(trimmed_start(s) =~= s.skip(0));
        }
    } else {
        lemma_trimmed_start_from(s.skip(1), m - 1);
        assert(s.skip(1).skip(m - 1) =~= s.skip(m));
    }
}

/// The characters of `chars` without trailing whitespace.
pub fn trim_end_chars(chars: &Vec<char>) -> (t: Vec<char>)
    ensures
        t@ == trimmed_end(chars@),
{
    let mut k = chars.len();
    let mut stop = false;
    while k > 0 && !stop
        invariant
            k <= chars@.len(),
            forall|j: int| k <= j < chars@.len() ==> white_space(#[trigger] chars@[j]),
            stop ==> k > 0 && !white_space(chars@[k - 1]),
        decreases k + if stop {
            0int
        } else {
            1int
        },
    {
        if is_white_space(chars[k - 1]) {
            k = k - 1;
        } else {
            stop = true;
        }
    }
    proof {
        lemma_trimmed_end_upto(chars@, k as int);
    }
    let mut t: Vec<char> = Vec::new();
    let mut i: usize = 0;
    while i < k
        invariant
            i <= k <= chars@.len(),
            t@ == chars@.take(i as int),
        decreases k - i,
    {
        t.push(chars[i]);
        assert(t@ =~= chars@.take(i + 1 as int));
        i = i + 1;
    }
    t
}

/// The characters of `chars` without leading and trailing whitespace.
pub fn trim_chars(chars: &Vec<char>) -> (t: Vec<char>)
    ensures
        t@ == trimmed(chars@),
{
    let cut_end = trim_end_chars(chars);
    let n = cut_end.len();
    let mut m: usize = 0;
    let mut stop = false;
    while m < n && !stop
        invariant
            m <= n,
            n == cut_end@.len(),
            forall|j: int| 0 <= j < m ==> white_space(#[trigger] cut_end@[j]),
            stop ==> m < n && !white_space(cut_end@[m as int]),
        decreases n - m + if stop {
            0int
        } else {
            1int
        },
    {
        if is_white_space(cut_end[m]) {
            m = m + 1;
        } else {
            stop = true;
        }
    }
    proof {
        lemma_trimmed_start_from(cut_end@, m as int);
    }
    let mut t: Vec<char> = Vec::new();
    let mut i: usize = m;
    while i < n
        invariant
            m <= i <= n,
            n == cut_end@.len(),
            t@ == cut_end@.subrange(m as int, i as int),
        decreases n - i,
    {
        t.push(cut_end[i]);
        assert(t@ =~= cut_end@.subrange(m as int, i + 1 as int));
        i = i + 1;
    }
    assert(t@ =~= cut_end@.skip(m as int));
    t
}

/// Push `n` spaces onto a character vector.
pub fn push_spaces(out: &mut Vec<char>, n: usize)
    ensures
        final(out)@ == old(out)@ + spaces(n as nat),
{
    let mut i: usize = 0;
    while i < n
        invariant
            i <= n,
            out@ == old(out)@ + spaces(i as nat),
        decreases n - i,
    {
        out.push(' ');
        assert(old(out)@ + spaces(i as nat) + seq![' '] =~= old(out)@ + spaces((i + 1) as nat));
        i = i + 1;
    }
}

/// Append every character of `piece` to `out`.
pub fn push_all(out: &mut Vec<char>, piece: &Vec<char>)
    ensures
        final(out)@ == old(out)@ + piece@,
{
    let mut i: usize = 0;
    while i < piece.len()
        invariant
            i <= piece@.len(),
            out@ == old(out)@ + piece@.take(i as int),
        decreases piece@.len() - i,
    {
        out.push(piece[i]);
        assert(old(out)@ + piece@.take(i as int) + seq![piece@[i as int]] =~= old(out)@
            + piece@.take(i + 1 as int));
        i = i + 1;
    }
    assert(piece@.take(piece@.len() as int) =~= piece@);
}

} // verus!
