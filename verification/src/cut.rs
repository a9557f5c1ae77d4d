//! The field/byte/character cutting core: parsing a comma-separated list of
//! one-based positions and ranges, and extracting the selected slices from
//! a line or record.

use core::ops::Range;
use vstd::prelude::*;
use vstd::string::StringExecFns;
use vstd::utf8::encode_utf8;

use crate::chars::{chars_string, chars_vec, lossy_chars, lossy_string};
use crate::numbers::{all_digits, dec_digits, digits_value, parse_digits_u64, push_decimal};

verus! {

/// A list of zero-based, half-open index ranges.
pub type PositionList = Vec<Range<usize>>;

// ---------------------------------------------------------------------------
// Splitting on a separator
// ---------------------------------------------------------------------------

/// The prefix of `s` before the first occurrence of `sep` (the whole of `s`
/// when it holds none).
pub open spec fn first_part(s: Seq<char>, sep: char) -> Seq<char>
    decreases s.len(),
{
    if s.len() == 0 {
        Seq::<char>::empty()
    } else if s[0] == sep {
        Seq::<char>::empty()
    } else {
        seq![s[0]] + first_part(s.skip(1), sep)
    }
}

/// `s` split at every occurrence of `sep`: empty input gives one empty
/// part, and every separator ends a part.
pub open spec fn split_on(s: Seq<char>, sep: char) -> Seq<Seq<char>>
    decreases s.len(),
    via split_on_decreases
{
    let fp = first_part(s, sep);
    if fp.len() == s.len() {
        seq![fp]
    } else {
        seq![fp] + split_on(s.skip(fp.len() as int + 1), sep)
    }
}

#[via_fn]
proof fn split_on_decreases(s: Seq<char>, sep: char) {
    lemma_first_part_len(s, sep);
}

/// The first part never outgrows the whole.
proof fn lemma_first_part_len(s: Seq<char>, sep: char)
    ensures
        first_part(s, sep).len() <= s.len(),
    decreases s.len(),
{
    if s.len() > 0 && s[0] != sep {
        lemma_first_part_len(s.skip(1), sep);
    }
}

/// When the first separator sits at index `k`, the first part is the prefix
/// before it.
proof fn lemma_first_part_upto(s: Seq<char>, sep: char, k: int)
    requires
        0 <= k < s.len(),
        s[k] == sep,
        forall|j: int| 0 <= j < k ==> s[j] != sep,
    ensures
        first_part(s, sep) == s.take(k),
    decreases k,
{
    if k == 0 {
        assert(first_part(s, sep) =~= s.take(0));
    } else {
        lemma_first_part_upto(s.skip(1), sep, k - 1);
        assert(seq![s[0]] + s.skip(1).take(k - 1) =~= s.take(k));
    }
}

/// Without any separator, the first part is the whole sequence.
proof fn lemma_first_part_whole(s: Seq<char>, sep: char)
    requires
        forall|j: int| 0 <= j < s.len() ==> s[j] != sep,
    ensures
        first_part(s, sep) == s,
    decreases s.len(),
{
    if s.len() > 0 {
        lemma_first_part_whole(s.skip(1), sep);
        assert(seq![s[0]] + s.skip(1) =~= s);
    }
}

/// Split a character vector at every occurrence of `sep`.
pub fn split_char(chars: &Vec<char>, sep: char) -> (parts: Vec<Vec<char>>)
    ensures
        parts@.len() == split_on(chars@, sep).len(),
        forall|i: int|
            0 <= i < parts@.len() ==> #[trigger] parts@[i]@ == split_on(chars@, sep)[i],
{
    let n = chars.len();
    let mut parts: Vec<Vec<char>> = Vec::new();
    let ghost mut done: Seq<Seq<char>> = Seq::empty();
    let mut start: usize = 0;
    let mut finished = false;
    assert(chars@.skip(0) =~= chars@);
    assert(Seq::<Seq<char>>::empty() + split_on(chars@, sep) =~= split_on(chars@, sep));
    while !finished
        invariant
            start <= n,
            n == chars@.len(),
            parts@.len() == done.len(),
            forall|i: int| 0 <= i < done.len() ==> #[trigger] parts@[i]@ == done[i],
            !finished ==> done + split_on(chars@.skip(start as int), sep) == split_on(
                chars@,
                sep,
            ),
            finished ==> done == split_on(chars@, sep),
        decreases n - start + if finished {
            0int
        } else {
            1int
        },
    {
        let ghost rem = chars@.skip(start as int);
        let mut end = start;
        let mut found = false;
        while end < n && !found
            invariant
                start <= end <= n,
                n == chars@.len(),
                found ==> end > start && chars@[end - 1] == sep && (forall|j: int|
                    start <= j < end - 1 ==> chars@[j] != sep),
                !found ==> forall|j: int| start <= j < end ==> chars@[j] != sep,
            decreases n - end + if found {
                0int
            } else {
                1int
            },
        {
            if chars[end] == sep {
                found = true;
            }
            end = end + 1;
        }
        let stop = if found {
            end - 1
        } else {
            end
        };
        proof {
            assert(forall|j: int| 0 <= j < rem.len() ==> rem[j] == chars@[start + j]);
            if found {
                lemma_first_part_upto(rem, sep, stop - start);
            } else {
                lemma_first_part_whole(rem, sep);
            }
            assert(first_part(rem, sep) =~= chars@.subrange(start as int, stop as int));
        }
        let mut part: Vec<char> = Vec::new();
        let mut i = start;
        while i < stop
            invariant
                start <= i <= stop <= chars@.len(),
                part@ == chars@.subrange(start as int, i as int),
            decreases stop - i,
        {
            part.push(chars[i]);
            assert(part@ =~= chars@.subrange(start as int, i + 1 as int));
            i = i + 1;
        }
        parts.push(part);
        let ghost fp = first_part(rem, sep);
        proof {
            done = done.push(part@);
            assert(part@ == fp);
        }
        if found {
            proof {
                assert(fp.len() == stop - start);
                assert(fp.len() < rem.len());
                assert(rem.skip(fp.len() as int + 1) =~= chars@.skip(end as int));
                assert(split_on(rem, sep) == seq![fp] + split_on(
                    chars@.skip(end as int),
                    sep,
                ));
                assert(done + split_on(chars@.skip(end as int), sep) =~= done.drop_last() + (
                seq![fp] + split_on(chars@.skip(end as int), sep)));
            }
            start = end;
        } else {
            proof {
                assert(fp.len() == rem.len());
                assert(split_on(rem, sep) == seq![fp]);
                assert(done =~= done.drop_last() + seq![fp]);
            }
            finished = true;
        }
    }
    parts
}

// ---------------------------------------------------------------------------
// The position-list grammar
// ---------------------------------------------------------------------------

/// A plain cut position: one or more digits (an explicit sign is refused),
/// non-zero, fitting the platform.
pub open spec fn plain_number_ok(p: Seq<char>) -> bool {
    p.len() > 0 && all_digits(p) && 0 < digits_value(p) <= usize::MAX
}

/// The complaint about one bad list element.
pub open spec fn illegal_value_msg(p: Seq<char>) -> Seq<char> {
    "illegal list value: \""@ + p + "\""@
}

/// The complaint about a backwards or empty range.
pub open spec fn range_order_msg(v1: int, v2: int) -> Seq<char> {
    "First number in range ("@ + dec_digits(v1 as nat)
        + ") must be lower than second number ("@ + dec_digits(v2 as nat) + ")"@
}

/// What parsing one range element (`7` or `3-5`) yields: a zero-based
/// half-open pair, or the error text.
pub open spec fn spec_parse_range(p: Seq<char>) -> Result<(int, int), Seq<char>> {
    let parts = split_on(p, '-');
    if parts.len() == 1 {
        if plain_number_ok(parts[0]) {
            Ok((digits_value(parts[0]) - 1, digits_value(parts[0])))
        } else {
            Err(illegal_value_msg(parts[0]))
        }
    } else if parts.len() == 2 {
        if !plain_number_ok(parts[0]) {
            Err(illegal_value_msg(parts[0]))
        } else if !plain_number_ok(parts[1]) {
            Err(illegal_value_msg(parts[1]))
        } else if digits_value(parts[0]) >= digits_value(parts[1]) {
            Err(range_order_msg(digits_value(parts[0]), digits_value(parts[1])))
        } else {
            Ok((digits_value(parts[0]) - 1, digits_value(parts[1])))
        }
    } else {
        Err("A range should be specified using only one '-'."@)
    }
}

/// What parsing a list of range elements yields: the ranges in order, or
/// the first error.
pub open spec fn spec_parse_ranges(parts: Seq<Seq<char>>) -> Result<Seq<(int, int)>, Seq<char>>
    decreases parts.len(),
{
    if parts.len() == 0 {
        Ok(Seq::<(int, int)>::empty())
    } else {
        match spec_parse_range(parts[0]) {
            Err(e) => Err(e),
            Ok(r) => match spec_parse_ranges(parts.skip(1)) {
                Err(e) => Err(e),
                Ok(rs) => Ok(seq![r] + rs),
            },
        }
    }
}

/// What parsing a whole position list yields.
pub open spec fn spec_parse_pos(s: Seq<char>) -> Result<Seq<(int, int)>, Seq<char>> {
    if s.len() == 0 {
        Err("Range cannot be empty"@)
    } else {
        spec_parse_ranges(split_on(s, ','))
    }
}

/// Parse the field delimiter: exactly the strings of one byte are accepted,
/// and that byte is the delimiter.
pub fn parse_delimiter(delimiter: &str) -> (r: Result<u8, String>)
    ensures
        match r {
            Ok(b) => encode_utf8(delimiter@).len() == 1 && b == encode_utf8(delimiter@)[0],
            Err(e) => encode_utf8(delimiter@).len() != 1 && e@
                == "--delim \""@ + delimiter@ + "\" must be a single byte"@,
        },
{
    if delimiter.len() != 1 {
        return Err(crate::chars::concat3("--delim \"", delimiter, "\" must be a single byte"));
    }
    let bytes = delimiter.as_bytes();
    Ok(bytes[0])
}

/// The complaint about one bad list element.
pub fn err_string(n: &str) -> (r: String)
    ensures
        r@ == illegal_value_msg(n@),
{
    crate::chars::concat3("illegal list value: \"", n, "\"")
}

/// Parse one range element: a single one-based position, or `lo-hi` with
/// `lo` strictly below `hi`.
pub fn parse_range(range: &str) -> (r: Result<Range<usize>, String>)
    ensures
        match r {
            Ok(rg) => spec_parse_range(range@) == Ok::<(int, int), Seq<char>>((rg.start as int, rg.end as int)),
            Err(e) => spec_parse_range(range@) matches Err(m) && e@ == m,
        },
{
    let chars = chars_vec(range);
    let parts = split_char(&chars, '-');
    if parts.len() == 1 {
        match parse_cut_number(&parts[0]) {
            Ok(v) => Ok(Range { start: v - 1, end: v }),
            Err(e) => Err(e),
        }
    } else if parts.len() == 2 {
        let v1 = match parse_cut_number(&parts[0]) {
            Ok(v) => v,
            Err(e) => {
                return Err(e);
            },
        };
        let v2 = match parse_cut_number(&parts[1]) {
            Ok(v) => v,
            Err(e) => {
                return Err(e);
            },
        };
        if v1 >= v2 {
            Err(order_message(v1, v2))
        } else {
            Ok(Range { start: v1 - 1, end: v2 })
        }
    } else {
        Err("A range should be specified using only one '-'.".to_owned())
    }
}

/// The complaint about a backwards or empty range.
fn order_message(v1: usize, v2: usize) -> (r: String)
    ensures
        r@ == range_order_msg(v1 as int, v2 as int),
{
    let mut out: Vec<char> = Vec::new();
    let mut r = String::new();
    r.append("First number in range (");
    push_decimal(&mut out, v1 as u64);
    r.append(chars_string(&out).as_str());
    r.append(") must be lower than second number (");
    let mut out2: Vec<char> = Vec::new();
    push_decimal(&mut out2, v2 as u64);
    r.append(chars_string(&out2).as_str());
    r.append(")");
    r
}

/// Parse one plain cut position out of its characters.
fn parse_cut_number(p: &Vec<char>) -> (r: Result<usize, String>)
    ensures
        match r {
            Ok(v) => plain_number_ok(p@) && v as int == digits_value(p@) && v > 0,
            Err(e) => !plain_number_ok(p@) && e@ == illegal_value_msg(p@),
        },
{
    match parse_digits_u64(p, 0, usize::MAX as u64) {
        Some(v) if v > 0 => {
            assert(p@.skip(0) =~= p@);
            Ok(v as usize)
        },
        _ => {
            assert(p@.skip(0) =~= p@);
            let s = chars_string(p);
            Err(err_string(s.as_str()))
        },
    }
}

/// Parse a comma-separated list of one-based positions and ranges into a
/// list of zero-based half-open ranges; exactly the lists in which every
/// element is well-formed are accepted, and the first offending element
/// decides the error.
pub fn parse_pos(range: &str) -> (r: Result<PositionList, String>)
    ensures
        match r {
            Ok(pos) => spec_parse_pos(range@) matches Ok(rs) && pos@.len() == rs.len() && (
            forall|i: int|
                0 <= i < rs.len() ==> (#[trigger] pos@[i]).start as int == rs[i].0
                    && pos@[i].end as int == rs[i].1),
            Err(e) => spec_parse_pos(range@) matches Err(m) && e@ == m,
        },
{
    if range.is_empty() {
        return Err("Range cannot be empty".to_owned());
    }
    let chars = chars_vec(range);
    let parts = split_char(&chars, ',');
    let ghost all_parts = split_on(range@, ',');
    let ghost full = spec_parse_ranges(all_parts);
    let mut pos: PositionList = Vec::new();
    let mut i: usize = 0;
    proof {
        lemma_parse_ranges_len(all_parts);
        assert(all_parts.skip(0) =~= all_parts);
        if let Ok(rs) = full {
            assert(rs.skip(0) =~= rs);
        }
    }
    while i < parts.len()
        invariant
            i <= parts@.len(),
            parts@.len() == all_parts.len(),
            forall|j: int| 0 <= j < parts@.len() ==> #[trigger] parts@[j]@ == all_parts[j],
            range@.len() > 0,
            all_parts == split_on(range@, ','),
            full == spec_parse_ranges(all_parts),
            full matches Ok(rs) ==> {
                &&& rs.len() == all_parts.len()
                &&& spec_parse_ranges(all_parts.skip(i as int)) == Ok::<_, Seq<char>>(
                    rs.skip(i as int),
                )
                &&& pos@.len() == i
                &&& forall|j: int|
                    0 <= j < i ==> (#[trigger] pos@[j]).start as int == rs[j].0 && pos@[j].end
                        as int == rs[j].1
            },
            full matches Err(m) ==> spec_parse_ranges(all_parts.skip(i as int)) == full,
        decreases parts@.len() - i,
    {
        let part = chars_string(&parts[i]);
        assert(part@ == all_parts[i as int]);
        proof {
            lemma_parse_ranges_step(all_parts, i as int);
        }
        match parse_range(part.as_str()) {
            Ok(rg) => {
                pos.push(rg);
                proof {
                    let ghost r = (rg.start as int, rg.end as int);
                    if let Ok(rs) = full {
                        let suffix_next = spec_parse_ranges(all_parts.skip(i + 1));
                        assert(suffix_next is Ok);
                        let x = suffix_next->Ok_0;
                        assert(seq![r] + x == rs.skip(i as int));
                        assert(x =~= rs.skip(i as int).skip(1));
                        assert(rs.skip(i as int).skip(1) =~= rs.skip(i + 1));
                        assert(rs[i as int] == rs.skip(i as int)[0]);
                        assert((seq![r] + x)[0] == r);
                    }
                }
            },
            Err(e) => {
                proof {
                    assert(spec_parse_ranges(all_parts.skip(i as int)) is Err);
                    if full is Ok {
                        assert(false);
                    }
                    assert(e@ == full->Err_0);
                }
                return Err(e);
            },
        }
        i = i + 1;
    }
    proof {
        assert(all_parts.skip(i as int) =~= Seq::<Seq<char>>::empty());
        if full is Err {
            assert(false);
        }
    }
    Ok(pos)
}

/// A successful list parse yields one range per part.
proof fn lemma_parse_ranges_len(parts: Seq<Seq<char>>)
    ensures
        spec_parse_ranges(parts) matches Ok(rs) ==> rs.len() == parts.len(),
    decreases parts.len(),
{
    if parts.len() > 0 {
        lemma_parse_ranges_len(parts.skip(1));
    }
}

/// One step of the list parse: the outcome on a suffix unfolds on its head.
proof fn lemma_parse_ranges_step(parts: Seq<Seq<char>>, i: int)
    requires
        0 <= i < parts.len(),
    ensures
        spec_parse_ranges(parts.skip(i)) == (match spec_parse_range(parts[i]) {
            Err(e) => Err::<Seq<(int, int)>, Seq<char>>(e),
            Ok(r) => match spec_parse_ranges(parts.skip(i + 1)) {
                Err(e) => Err(e),
                Ok(rs) => Ok(seq![r] + rs),
            },
        }),
{
    let suffix = parts.skip(i);
    assert(suffix[0] == parts[i]);
    assert(suffix.skip(1) =~= parts.skip(i + 1));
}

// ---------------------------------------------------------------------------
// Extraction
// ---------------------------------------------------------------------------

/// The elements of `s` with index in `[start, end)`, clamped to the length
/// of `s`.
pub open spec fn clamped_slice<T>(s: Seq<T>, start: int, end: int) -> Seq<T> {
    let lo = if start > s.len() {
        s.len() as int
    } else {
        start
    };
    let hi = if end > s.len() {
        s.len() as int
    } else {
        end
    };
    if hi <= lo {
        Seq::<T>::empty()
    } else {
        s.subrange(lo, hi)
    }
}

/// The selected slices of `s`, one per range, in the order the ranges are
/// given, concatenated.
pub open spec fn extracted<T>(s: Seq<T>, pos: Seq<Range<usize>>) -> Seq<T>
    decreases pos.len(),
{
    if pos.len() == 0 {
        Seq::<T>::empty()
    } else {
        extracted(s, pos.drop_last()) + clamped_slice(
            s,
            pos.last().start as int,
            pos.last().end as int,
        )
    }
}

/// Append the clamped slice `[start, end)` of `items` to `out`.
fn push_clamped<T: Copy>(out: &mut Vec<T>, items: &Vec<T>, start: usize, end: usize)
    ensures
        final(out)@ == old(out)@ + clamped_slice(items@, start as int, end as int),
{
    let n = items.len();
    let lo = if start > n {
        n
    } else {
        start
    };
    let hi = if end > n {
        n
    } else {
        end
    };
    let mut j = lo;
    while j < hi
        invariant
            lo <= j <= hi || j == lo,
            hi <= items@.len(),
            lo <= items@.len(),
            out@ == old(out)@ + if j <= lo {
                Seq::<T>::empty()
            } else {
                items@.subrange(lo as int, j as int)
            },
        decreases hi - j,
    {
        out.push(items[j]);
        assert(out@ =~= old(out)@ + items@.subrange(lo as int, j + 1 as int));
        j = j + 1;
    }
    assert(final(out)@ =~= old(out)@ + clamped_slice(items@, start as int, end as int));
}

/// The characters of `line` selected by the given ranges of character
/// positions, in range order.
pub fn extract_chars(line: &str, char_pos: &[Range<usize>]) -> (r: String)
    ensures
        r@ == extracted(line@, char_pos@),
{
    let chars = chars_vec(line);
    let mut out: Vec<char> = Vec::new();
    let mut i: usize = 0;
    while i < char_pos.len()
        invariant
            i <= char_pos@.len(),
            chars@ == line@,
            out@ == extracted(line@, char_pos@.take(i as int)),
        decreases char_pos@.len() - i,
    {
        let rg = &char_pos[i];
        push_clamped(&mut out, &chars, rg.start, rg.end);
        proof {
            assert(char_pos@.take(i + 1).drop_last() =~= char_pos@.take(i as int));
            assert(char_pos@.take(i + 1).last() == char_pos@[i as int]);
        }
        i = i + 1;
    }
    assert(char_pos@.take(char_pos@.len() as int) =~= char_pos@);
    chars_string(&out)
}

/// The bytes of `line` selected by the given ranges of byte positions, in
/// range order, decoded leniently back to text.
pub fn extract_bytes(line: &str, byte_pos: &[Range<usize>]) -> (r: String)
    ensures
        r@ == lossy_chars(extracted(encode_utf8(line@), byte_pos@)),
{
    let bytes = line.as_bytes();
    let mut byte_vec: Vec<u8> = Vec::new();
    let mut k: usize = 0;
    while k < bytes.len()
        invariant
            k <= bytes@.len(),
            byte_vec@ == bytes@.take(k as int),
        decreases bytes@.len() - k,
    {
        byte_vec.push(bytes[k]);
        assert(byte_vec@ =~= bytes@.take(k + 1 as int));
        k = k + 1;
    }
    assert(byte_vec@ =~= bytes@);
    let mut out: Vec<u8> = Vec::new();
    let mut i: usize = 0;
    while i < byte_pos.len()
        invariant
            i <= byte_pos@.len(),
            byte_vec@ == encode_utf8(line@),
            out@ == extracted(encode_utf8(line@), byte_pos@.take(i as int)),
        decreases byte_pos@.len() - i,
    {
        let rg = &byte_pos[i];
        push_clamped(&mut out, &byte_vec, rg.start, rg.end);
        proof {
            assert(byte_pos@.take(i + 1).drop_last() =~= byte_pos@.take(i as int));
            assert(byte_pos@.take(i + 1).last() == byte_pos@[i as int]);
        }
        i = i + 1;
    }
    assert(byte_pos@.take(byte_pos@.len() as int) =~= byte_pos@);
    lossy_string(&out)
}

/// The fields selected by a clamped slice, with empty fields left out.
pub open spec fn keep_nonempty(s: Seq<String>) -> Seq<String>
    decreases s.len(),
{
    if s.len() == 0 {
        Seq::<String>::empty()
    } else {
        keep_nonempty(s.drop_last()) + if s.last()@.len() > 0 {
            seq![s.last()]
        } else {
            Seq::<String>::empty()
        }
    }
}

/// The fields of a record selected by the given ranges, in range order,
/// with empty fields dropped.
pub open spec fn extracted_fields(fields: Seq<String>, pos: Seq<Range<usize>>) -> Seq<String>
    decreases pos.len(),
{
    if pos.len() == 0 {
        Seq::<String>::empty()
    } else {
        extracted_fields(fields, pos.drop_last()) + keep_nonempty(
            clamped_slice(fields, pos.last().start as int, pos.last().end as int),
        )
    }
}

/// The fields of `record` selected by the given ranges of field positions,
/// in range order, skipping empty fields.
pub fn extract_fields(record: &Vec<String>, field_pos: &[Range<usize>]) -> (r: Vec<String>)
    ensures
        r@ == extracted_fields(record@, field_pos@),
{
    let mut out: Vec<String> = Vec::new();
    let mut i: usize = 0;
    while i < field_pos.len()
        invariant
            i <= field_pos@.len(),
            out@ == extracted_fields(record@, field_pos@.take(i as int)),
        decreases field_pos@.len() - i,
    {
        let rg = &field_pos[i];
        let n = record.len();
        let lo = if rg.start > n {
            n
        } else {
            rg.start
        };
        let hi = if rg.end > n {
            n
        } else {
            rg.end
        };
        let ghost slice = clamped_slice(record@, field_pos@[i as int].start as int, field_pos@[
            i as int].end as int);
        let mut j = lo;
        while j < hi
            invariant
                lo <= j <= hi || j == lo,
                hi <= record@.len(),
                lo <= record@.len(),
                slice == clamped_slice(record@, field_pos@[i as int].start as int, field_pos@[
                    i as int].end as int),
                out@ == extracted_fields(record@, field_pos@.take(i as int)) + keep_nonempty(
                    if j <= lo {
                        Seq::<String>::empty()
                    } else {
                        record@.subrange(lo as int, j as int)
                    },
                ),
            decreases hi - j,
        {
            let field: &String = &record[j];
            let ghost sub = record@.subrange(lo as int, j + 1 as int);
            proof {
                assert(sub.drop_last() =~= if j <= lo {
                    Seq::<String>::empty()
                } else {
                    record@.subrange(lo as int, j as int)
                });
                assert(sub.last() == record@[j as int]);
            }
            if !field.as_str().is_empty() {
                out.push(field.clone());
                assert(out@ =~= out@.drop_last() + seq![record@[j as int]]);
            }
            j = j + 1;
        }
        proof {
            assert((if hi <= lo {
                Seq::<String>::empty()
            } else {
                record@.subrange(lo as int, hi as int)
            }) =~= slice);
            assert(field_pos@.take(i + 1).drop_last() =~= field_pos@.take(i as int));
            assert(field_pos@.take(i + 1).last() == field_pos@[i as int]);
        }
        i = i + 1;
    }
    assert(field_pos@.take(field_pos@.len() as int) =~= field_pos@);
    out
}

// ---------------------------------------------------------------------------
// Output formatting
// ---------------------------------------------------------------------------

/// A record joined with commas.
pub open spec fn comma_joined(parts: Seq<String>) -> Seq<char>
    decreases parts.len(),
{
    if parts.len() == 0 {
        Seq::<char>::empty()
    } else if parts.len() == 1 {
        parts[0]@
    } else {
        comma_joined(parts.drop_last()) + seq![','] + parts.last()@
    }
}

/// One output record: its fields joined with commas.
pub fn fmt(rec: &Vec<String>) -> (r: String)
    ensures
        r@ == comma_joined(rec@),
{
    let mut r = String::new();
    let mut i: usize = 0;
    while i < rec.len()
        invariant
            i <= rec@.len(),
            r@ == comma_joined(rec@.take(i as int)),
        decreases rec@.len() - i,
    {
        if i > 0 {
            r.append(",");
            proof {
                reveal_strlit(",");
            }
        }
        r.append(rec[i].as_str());
        proof {
            assert(rec@.take(i + 1).drop_last() =~= rec@.take(i as int));
            assert(rec@.take(i + 1).last() == rec@[i as int]);
        }
        i = i + 1;
    }
    assert(rec@.take(rec@.len() as int) =~= rec@);
    r
}

} // verus!
