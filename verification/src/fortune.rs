//! The fortune-cookie core: carving a source file's text into fortunes and
//! picking one at random.

use vstd::prelude::*;
use vstd::utf8::encode_utf8;

use rand::rngs::StdRng;
use rand::{Rng, RngCore, SeedableRng};

use crate::chars::{chars_string, chars_vec, trim_chars, trimmed};
use crate::comm::{
    cmp_str, lemma_lex_cmp_antisym, lemma_lex_cmp_eq, lemma_lex_cmp_trans, lex_cmp,
};
use crate::cut::split_on;

verus! {

// ---------------------------------------------------------------------------
// Selecting the source files
// ---------------------------------------------------------------------------

/// What follows the last occurrence of `sep`; the whole sequence when it
/// holds none.
pub open spec fn after_last(p: Seq<char>, sep: char) -> Seq<char>
    decreases p.len(),
{
    if p.len() == 0 {
        p
    } else if p.last() == sep {
        Seq::<char>::empty()
    } else {
        after_last(p.drop_last(), sep).push(p.last())
    }
}

/// Whether a path names a `.dat` file: its final component ends in `.dat`
/// with something before the dot.
pub open spec fn is_dat_path(p: Seq<char>) -> bool {
    let name = after_last(p, '/');
    name.len() > 4 && name.skip(name.len() - 4) == seq!['.', 'd', 'a', 't']
}

/// When everything from `k` on is free of the separator, and the character
/// before `k` is one, what follows the last separator is the tail from `k`.
proof fn lemma_after_last(p: Seq<char>, sep: char, k: int)
    requires
        0 <= k <= p.len(),
        k > 0 ==> p[k - 1] == sep,
        forall|j: int| k <= j < p.len() ==> p[j] != sep,
    ensures
        after_last(p, sep) == p.skip(k),
    decreases p.len(),
{
    if p.len() == 0 {
        assert(p.skip(0) =~= p);
    } else if k == p.len() {
        assert(p.skip(k) =~= Seq::<char>::empty());
    } else {
        lemma_after_last(p.drop_last(), sep, k);
        assert(p.drop_last().skip(k).push(p.last()) =~= p.skip(k));
    }
}

/// Whether the path names a `.dat` file.
fn is_dat_file(path: &str) -> (r: bool)
    ensures
        r == is_dat_path(path@),
{
    let chars = chars_vec(path);
    let n = chars.len();
    let mut k: usize = 0;
    let mut i: usize = 0;
    while i < n
        invariant
            i <= n,
            n == chars@.len(),
            k <= i,
            k > 0 ==> chars@[k - 1] == '/',
            forall|j: int| k <= j < i ==> chars@[j] != '/',
        decreases n - i,
    {
        if chars[i] == '/' {
            k = i + 1;
        }
        i = i + 1;
    }
    proof {
        lemma_after_last(path@, '/', k as int);
    }
    if n - k <= 4 {
        return false;
    }
    let r = chars[n - 4] == '.' && chars[n - 3] == 'd' && chars[n - 2] == 'a' && chars[n - 1]
        == 't';
    proof {
        let name = path@.skip(k as int);
        assert(name.skip(name.len() - 4) =~= seq![
            path@[n - 4],
            path@[n - 3],
            path@[n - 2],
            path@[n - 1],
        ]);
        if name.skip(name.len() - 4) == seq!['.', 'd', 'a', 't'] {
            assert(path@[n - 4] == '.' && path@[n - 3] == 'd' && path@[n - 2] == 'a' && path@[n
                - 1] == 't');
        }
    }
    r
}

/// Paths in strictly ascending lexicographic byte order.
pub open spec fn strictly_ascending(v: Seq<String>) -> bool {
    forall|i: int, j: int|
        0 <= i < j < v.len() ==> lex_cmp(
            encode_utf8((#[trigger] v[i])@),
            encode_utf8((#[trigger] v[j])@),
        ) < 0
}

/// Whether some element of `v` holds the text `s`.
pub open spec fn view_present(v: Seq<String>, s: Seq<char>) -> bool {
    exists|i: int| 0 <= i < v.len() && (#[trigger] v[i])@ == s
}

/// Insert one path into an ascending list, keeping the order; a path
/// already there is not inserted again.
fn insert_unique(out: &mut Vec<String>, item: String)
    requires
        strictly_ascending(old(out)@),
    ensures
        strictly_ascending(final(out)@),
        view_present(final(out)@, item@),
        forall|i: int|
            0 <= i < final(out)@.len() ==> (#[trigger] final(out)@[i])@ == item@ || view_present(
                old(out)@,
                final(out)@[i]@,
            ),
        forall|i: int|
            0 <= i < old(out)@.len() ==> view_present(final(out)@, (#[trigger] old(out)@[i])@),
{
    let n = out.len();
    let mut p: usize = 0;
    let mut stop = false;
    while p < n && !stop
        invariant
            p <= n,
            n == out@.len(),
            out@ == old(out)@,
            forall|q: int|
                0 <= q < p ==> lex_cmp(encode_utf8((#[trigger] out@[q])@), encode_utf8(item@))
                    < 0,
            stop ==> p < n && lex_cmp(encode_utf8(out@[p as int]@), encode_utf8(item@)) >= 0,
        decreases n - p + if stop {
            0int
        } else {
            1int
        },
    {
        if cmp_str(out[p].as_str(), item.as_str()) < 0 {
            p = p + 1;
        } else {
            stop = true;
        }
    }
    if p < n {
        let c = cmp_str(out[p].as_str(), item.as_str());
        if c == 0 {
            proof {
                lemma_lex_cmp_eq(encode_utf8(out@[p as int]@), encode_utf8(item@));
                vstd::utf8::encode_utf8_decode_utf8(out@[p as int]@);
                vstd::utf8::encode_utf8_decode_utf8(item@);
                assert(out@[p as int]@ == item@);
                assert(view_present(out@, item@));
                assert forall|i: int| 0 <= i < out@.len() implies view_present(
                    out@,
                    (#[trigger] out@[i])@,
                ) by {
                    assert(out@[i]@ == out@[i]@);
                }
            }
            return ;
        }
        proof {
            lemma_lex_cmp_antisym(encode_utf8(out@[p as int]@), encode_utf8(item@));
        }
    }
    let ghost pre = out@;
    let ghost key = encode_utf8(item@);
    out.insert(p, item);
    proof {
        assert(out@ == pre.insert(p as int, item));
        assert forall|i: int, j: int| 0 <= i < j < out@.len() implies lex_cmp(
            encode_utf8(out@[i]@),
            encode_utf8(out@[j]@),
        ) < 0 by {
            if i == p && j > p {
                assert(out@[j] == pre[j - 1]);
                assert(lex_cmp(key, encode_utf8(pre[p as int]@)) < 0);
                if j - 1 > p {
                    lemma_lex_cmp_trans(
                        key,
                        encode_utf8(pre[p as int]@),
                        encode_utf8(pre[j - 1]@),
                    );
                }
            }
        }
        assert(out@[p as int] == item);
        assert(view_present(out@, item@));
        assert forall|i: int| 0 <= i < pre.len() implies view_present(
            out@,
            (#[trigger] pre[i])@,
        ) by {
            if i < p {
                assert(out@[i] == pre[i]);
            } else {
                assert(out@[i + 1] == pre[i]);
            }
        }
        assert forall|i: int| 0 <= i < out@.len() implies out@[i]@ == item@ || view_present(
            pre,
            (#[trigger] out@[i])@,
        ) by {
            if i < p {
                assert(out@[i] == pre[i]);
            } else if i > p {
                assert(out@[i] == pre[i - 1]);
            }
        }
    }
}

/// Keep the fortune source paths: `.dat` index files are dropped, the rest
/// come out in ascending order, each path once.
pub fn select_fortune_files(paths: &Vec<String>) -> (out: Vec<String>)
    ensures
        strictly_ascending(out@),
        forall|i: int|
            0 <= i < out@.len() ==> view_present(paths@, (#[trigger] out@[i])@) && !is_dat_path(
                out@[i]@,
            ),
        forall|k: int|
            0 <= k < paths@.len() ==> !is_dat_path((#[trigger] paths@[k])@) ==> view_present(
                out@,
                paths@[k]@,
            ),
{
    let mut out: Vec<String> = Vec::new();
    let mut k: usize = 0;
    while k < paths.len()
        invariant
            k <= paths@.len(),
            strictly_ascending(out@),
            forall|i: int|
                0 <= i < out@.len() ==> view_present(paths@, (#[trigger] out@[i])@)
                    && !is_dat_path(out@[i]@),
            forall|kk: int|
                0 <= kk < k ==> !is_dat_path((#[trigger] paths@[kk])@) ==> view_present(
                    out@,
                    paths@[kk]@,
                ),
        decreases paths@.len() - k,
    {
        let path: &String = &paths[k];
        if !is_dat_file(path.as_str()) {
            let ghost pre = out@;
            insert_unique(&mut out, path.clone());
            proof {
                assert forall|i: int|
                    0 <= i < out@.len() implies view_present(paths@, (#[trigger] out@[i])@)
                    && !is_dat_path(out@[i]@) by {
                    if out@[i]@ != paths@[k as int]@ {
                        let s = out@[i]@;
                        assert(view_present(pre, s));
                        let w = choose|w: int| 0 <= w < pre.len() && pre[w]@ == s;
                        assert(view_present(paths@, s) && !is_dat_path(s));
                    }
                }
                assert forall|kk: int|
                    0 <= kk < k + 1 && !is_dat_path((#[trigger] paths@[kk])@) implies view_present(
                    out@,
                    paths@[kk]@,
                ) by {
                    if kk < k {
                        let w = choose|w: int| 0 <= w < pre.len() && pre[w]@ == paths@[kk]@;
                        assert(view_present(out@, pre[w]@));
                    }
                }
            }
        }
        k = k + 1;
    }
    out
}

/// One fortune, remembering which source file it came from.
#[derive(Debug, Clone)]
pub struct Fortune {
    pub source: String,
    pub text: String,
}

/// The fortune texts in a source: the `%`-separated pieces, trimmed, with
/// the empty ones dropped.
pub open spec fn fortune_texts(pieces: Seq<Seq<char>>) -> Seq<Seq<char>>
    decreases pieces.len(),
{
    if pieces.len() == 0 {
        Seq::<Seq<char>>::empty()
    } else {
        fortune_texts(pieces.drop_last()) + if trimmed(pieces.last()).len() > 0 {
            seq![trimmed(pieces.last())]
        } else {
            Seq::<Seq<char>>::empty()
        }
    }
}

/// Carve one source file's text into fortunes: the pieces between `%`
/// separators, trimmed of surrounding whitespace, skipping empty ones, each
/// tagged with the source name.
pub fn fortunes_from_text(source: &str, content: &str) -> (out: Vec<Fortune>)
    ensures
        out@.len() == fortune_texts(split_on(content@, '%')).len(),
        forall|i: int|
            0 <= i < out@.len() ==> (#[trigger] out@[i]).text@ == fortune_texts(
                split_on(content@, '%'),
            )[i] && out@[i].source@ == source@,
{
    let ghost pieces = split_on(content@, '%');
    let chars = chars_vec(content);
    let parts = crate::cut::split_char(&chars, '%');
    let mut out: Vec<Fortune> = Vec::new();
    let mut i: usize = 0;
    while i < parts.len()
        invariant
            i <= parts@.len(),
            parts@.len() == pieces.len(),
            forall|j: int| 0 <= j < parts@.len() ==> #[trigger] parts@[j]@ == pieces[j],
            out@.len() == fortune_texts(pieces.take(i as int)).len(),
            forall|j: int|
                0 <= j < out@.len() ==> (#[trigger] out@[j]).text@ == fortune_texts(
                    pieces.take(i as int),
                )[j] && out@[j].source@ == source@,
        decreases parts@.len() - i,
    {
        let t = trim_chars(&parts[i]);
        if t.len() > 0 {
            let text = chars_string(&t);
            out.push(Fortune { source: source.to_owned(), text });
        }
        proof {
            assert(pieces.take(i + 1).drop_last() =~= pieces.take(i as int));
            assert(pieces.take(i + 1).last() == pieces[i as int]);
        }
        i = i + 1;
    }
    assert(pieces.take(pieces.len() as int) =~= pieces);
    out
}

/// The index a seeded draw yields for a range of size `n`: the seeded
/// generator is deterministic, so this is a function of the seed and the
/// size.
pub uninterp spec fn seeded_index(n: int, seed: u64) -> int;

/// Relies on `rand::rngs::StdRng::seed_from_u64` and `Rng::gen_range`: the
/// seeded generator's output depends on the seed alone, and the draw is
/// below `n`.
#[verifier::external_body]
fn seeded_below(n: usize, seed: u64) -> (r: usize)
    requires
        n > 0,
    ensures
        r as int == seeded_index(n as int, seed),
        r < n,
{
    let mut rng: Box<dyn RngCore> = Box::new(StdRng::seed_from_u64(seed));
    rng.gen_range(0..n)
}

/// Relies on `rand::thread_rng` and `Rng::gen_range`: whatever the draw, it
/// is below `n`.
#[verifier::external_body]
fn thread_below(n: usize) -> (r: usize)
    requires
        n > 0,
    ensures
        r < n,
{
    let mut rng: Box<dyn RngCore> = Box::new(rand::thread_rng());
    rng.gen_range(0..n)
}

/// Pick one fortune's text at random: with a seed the draw is reproducible
/// (the text at the seeded index), without one it may differ between calls,
/// but the result is always the text of one of the given fortunes.
pub fn pick_fortune<'a>(fortunes: &'a Vec<Fortune>, seed: Option<u64>) -> (r: Option<
    &'a String,
>)
    requires
        fortunes@.len() > 0,
    ensures
        r matches Some(t) && exists|i: int|
            0 <= i < fortunes@.len() && *t == (#[trigger] fortunes@[i]).text,
        seed matches Some(s) ==> {
            &&& 0 <= seeded_index(fortunes@.len() as int, s) < fortunes@.len()
            &&& r matches Some(t) && *t == fortunes@[seeded_index(
                fortunes@.len() as int,
                s,
            )].text
        },
{
    let idx = match seed {
        Some(s) => seeded_below(fortunes.len(), s),
        None => thread_below(fortunes.len()),
    };
    let f: &Fortune = &fortunes[idx];
    assert(fortunes@[idx as int] == *f);
    Some(&f.text)
}

} // verus!
