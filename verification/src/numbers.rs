//! Decimal numerals: the grammar shared by every numeric argument, the
//! mathematical value of a digit string, and verified parsers and printers.

use vstd::prelude::*;

use crate::chars::{chars_vec, chars_string, concat3};

verus! {

// ---------------------------------------------------------------------------
// The decimal grammar and its value
// ---------------------------------------------------------------------------

pub open spec fn is_digit(c: char) -> bool {
    '0' <= c && c <= '9'
}

/// Numeric value of one digit character (meaningful only when `is_digit`).
pub open spec fn digit_val(c: char) -> int {
    c as u32 - '0' as u32
}

pub open spec fn all_digits(s: Seq<char>) -> bool {
    forall|i: int| 0 <= i < s.len() ==> is_digit(#[trigger] s[i])
}

/// Value of a digit string, most significant digit first.
pub open spec fn digits_value(s: Seq<char>) -> int
    decreases s.len(),
{
    if s.len() == 0 {
        0
    } else {
        digits_value(s.drop_last()) * 10 + digit_val(s.last())
    }
}

/// The digit character for one value below ten.
pub open spec fn digit_char(d: int) -> char {
    if d == 0 { '0' }
    else if d == 1 { '1' }
    else if d == 2 { '2' }
    else if d == 3 { '3' }
    else if d == 4 { '4' }
    else if d == 5 { '5' }
    else if d == 6 { '6' }
    else if d == 7 { '7' }
    else if d == 8 { '8' }
    else { '9' }
}

/// Canonical decimal numeral of a non-negative value: no sign, no leading
/// zeros, a single `'0'` for zero.
pub open spec fn dec_digits(n: nat) -> Seq<char>
    decreases n,
{
    if n < 10 {
        seq![digit_char(n as int)]
    } else {
        dec_digits(n / 10).push(digit_char((n % 10) as int))
    }
}

// The digits after an optional `+` sign (the grammar of unsigned parsing).
pub open spec fn unsigned_digits(s: Seq<char>) -> Seq<char> {
    if s.len() > 0 && s[0] == '+' {
        s.skip(1)
    } else {
        s
    }
}

pub open spec fn is_unsigned_numeral(s: Seq<char>) -> bool {
    unsigned_digits(s).len() > 0 && all_digits(unsigned_digits(s))
}

pub open spec fn unsigned_value(s: Seq<char>) -> int {
    digits_value(unsigned_digits(s))
}

// The digits after an optional `+` or `-` sign (the grammar of signed parsing).
pub open spec fn signed_digits(s: Seq<char>) -> Seq<char> {
    if s.len() > 0 && (s[0] == '+' || s[0] == '-') {
        s.skip(1)
    } else {
        s
    }
}

pub open spec fn is_signed_numeral(s: Seq<char>) -> bool {
    signed_digits(s).len() > 0 && all_digits(signed_digits(s))
}

pub open spec fn signed_value(s: Seq<char>) -> int {
    if s.len() > 0 && s[0] == '-' {
        -digits_value(signed_digits(s))
    } else {
        digits_value(signed_digits(s))
    }
}

pub open spec fn in_i64_range(v: int) -> bool {
    i64::MIN <= v <= i64::MAX
}

// ---------------------------------------------------------------------------
// Facts about digit strings
// ---------------------------------------------------------------------------

proof fn lemma_digit_char_val(d: int)
    requires
        0 <= d < 10,
    ensures
        is_digit(digit_char(d)),
        digit_val(digit_char(d)) == d,
{
}

/// Reading one more digit multiplies the prefix value by ten.
proof fn lemma_digits_value_step(s: Seq<char>, i: int)
    requires
        0 <= i < s.len(),
    ensures
        digits_value(s.take(i + 1)) == digits_value(s.take(i)) * 10 + digit_val(s[i]),
{
    assert(s.take(i + 1).drop_last() =~= s.take(i));
    assert(s.take(i + 1).last() == s[i]);
}

/// A string of digits has a non-negative value.
pub proof fn lemma_digits_value_nonneg(s: Seq<char>)
    requires
        all_digits(s),
    ensures
        digits_value(s) >= 0,
    decreases s.len(),
{
    if s.len() > 0 {
        assert(all_digits(s.drop_last())) by {
            assert(forall|i: int| 0 <= i < s.len() - 1 ==> s.drop_last()[i] == s[i]);
        }
        lemma_digits_value_nonneg(s.drop_last());
    }
}

/// The value of a digit string never falls below the value of a prefix.
proof fn lemma_digits_value_prefix_le(s: Seq<char>, i: int)
    requires
        all_digits(s),
        0 <= i <= s.len(),
    ensures
        digits_value(s.take(i)) <= digits_value(s),
    decreases s.len() - i,
{
    if i == s.len() {
        assert(s.take(i) =~= s);
    } else {
        lemma_digits_value_step(s, i);
        assert(all_digits(s.take(i))) by {
            assert(forall|j: int| 0 <= j < i ==> s.take(i)[j] == s[j]);
        }
        lemma_digits_value_nonneg(s.take(i));
        assert(digits_value(s.take(i)) <= digits_value(s.take(i + 1)));
        lemma_digits_value_prefix_le(s, i + 1);
    }
}

/// The canonical numeral of `n` is made of digits and reads back as `n`.
pub proof fn lemma_dec_digits(n: nat)
    ensures
        dec_digits(n).len() >= 1,
        all_digits(dec_digits(n)),
        digits_value(dec_digits(n)) == n,
    decreases n,
{
    if n < 10 {
        lemma_digit_char_val(n as int);
        let s = dec_digits(n);
        assert(s.drop_last() =~= Seq::<char>::empty());
        assert(s.last() == digit_char(n as int));
        assert(digits_value(Seq::<char>::empty()) == 0);
        assert(digits_value(s) == digits_value(s.drop_last()) * 10 + digit_val(s.last()));
        assert(s[0] == digit_char(n as int));
    } else {
        lemma_dec_digits(n / 10);
        lemma_digit_char_val((n % 10) as int);
        let p = dec_digits(n / 10);
        let s = dec_digits(n);
        assert(s == p.push(digit_char((n % 10) as int)));
        assert(s.drop_last() =~= p);
        assert(digits_value(s) == digits_value(p) * 10 + (n % 10));
        assert(forall|i: int| 0 <= i < s.len() ==> is_digit(#[trigger] s[i])) by {
            assert(forall|i: int| 0 <= i < p.len() ==> s[i] == p[i]);
        }
    }
}

// ---------------------------------------------------------------------------
// Executable parsing
// ---------------------------------------------------------------------------

/// Read `chars[start..]` as an unsigned run of digits whose value is at most
/// `cap`. Returns the value exactly when the run is non-empty, all digits,
/// and within the bound.
pub(crate) fn parse_digits_u64(chars: &Vec<char>, start: usize, cap: u64) -> (r: Option<u64>)
    requires
        start <= chars@.len(),
    ensures
        ({
            let tail = chars@.skip(start as int);
            match r {
                Some(v) => tail.len() > 0 && all_digits(tail) && digits_value(tail) <= cap
                    && v == digits_value(tail),
                None => !(tail.len() > 0 && all_digits(tail) && digits_value(tail) <= cap),
            }
        }),
{
    let ghost tail = chars@.skip(start as int);
    if start == chars.len() {
        return None;
    }
    let mut acc: u64 = 0;
    let mut i: usize = start;
    while i < chars.len()
        invariant
            start <= i <= chars@.len(),
            tail == chars@.skip(start as int),
            all_digits(tail.take(i - start)),
            acc == digits_value(tail.take(i - start)),
            acc <= cap,
        decreases chars@.len() - i,
    {
        let c = chars[i];
        assert(tail[i - start] == c);
        if c < '0' || c > '9' {
            assert(!all_digits(tail));
            return None;
        }
        let d: u64 = (c as u32 - '0' as u32) as u64;
        proof {
            lemma_digits_value_step(tail, i - start);
        }
        if acc > cap / 10 {
            proof {
                if all_digits(tail) {
                    assert(acc * 10 + d > cap) by (nonlinear_arith)
                        requires
                            acc > cap / 10,
                            cap / 10 == (cap - cap % 10) / 10,
                            0 <= cap % 10 <= 9,
                            d >= 0,
                            acc * 10 >= (cap / 10) * 10 + 10,
                            (cap / 10) * 10 + cap % 10 == cap,
                    ;
                    lemma_digits_value_prefix_le(tail, i - start + 1);
                }
            }
            return None;
        }
        assert(acc * 10 <= cap) by (nonlinear_arith)
            requires
                acc <= cap / 10,
                acc >= 0,
                (cap / 10) * 10 + cap % 10 == cap,
                0 <= cap % 10,
        ;
        let shifted: u64 = acc * 10;
        if d > cap - shifted {
            proof {
                if all_digits(tail) {
                    lemma_digits_value_prefix_le(tail, i - start + 1);
                }
            }
            return None;
        }
        acc = shifted + d;
        i = i + 1;
        assert(tail.take(i - start).drop_last() =~= tail.take(i - 1 - start));
    }
    assert(tail.take(i - start) =~= tail);
    Some(acc)
}

/// Parse a signed 64-bit integer: an optional `+` or `-` sign followed by
/// one or more digits, with the value in the range of `i64`. Any other
/// string, and any value out of range, is rejected with a message naming
/// the offending text.
pub fn parse_int(val: &str) -> (r: Result<i64, String>)
    ensures
        match r {
            Ok(v) => is_signed_numeral(val@) && in_i64_range(signed_value(val@)) && v as int
                == signed_value(val@),
            Err(e) => !(is_signed_numeral(val@) && in_i64_range(signed_value(val@))) && e@
                == "Invalid integer \""@ + val@ + "\""@,
        },
{
    let chars = chars_vec(val);
    let neg = chars.len() > 0 && chars[0] == '-';
    let has_sign = chars.len() > 0 && (chars[0] == '-' || chars[0] == '+');
    let start: usize = if has_sign {
        1
    } else {
        0
    };
    let cap: u64 = if neg {
        0x8000_0000_0000_0000
    } else {
        0x7fff_ffff_ffff_ffff
    };
    assert(chars@.skip(start as int) == signed_digits(val@));
    match parse_digits_u64(&chars, start, cap) {
        Some(v) => {
            proof {
                lemma_digits_value_nonneg(signed_digits(val@));
            }
            if neg {
                if v == 0x8000_0000_0000_0000 {
                    Ok(i64::MIN)
                } else {
                    Ok(-(v as i64))
                }
            } else {
                Ok(v as i64)
            }
        },
        None => Err(concat3("Invalid integer \"", val, "\"")),
    }
}

/// Parse a strictly positive `usize`: an optional `+` sign followed by one
/// or more digits, with a value above zero that fits the platform. The
/// rejection carries the offending text itself.
pub fn parse_positive_int(val: &str) -> (r: Result<usize, String>)
    ensures
        match r {
            Ok(v) => is_unsigned_numeral(val@) && 0 < unsigned_value(val@) <= usize::MAX && v
                as int == unsigned_value(val@),
            Err(e) => !(is_unsigned_numeral(val@) && 0 < unsigned_value(val@) <= usize::MAX)
                && e@ == val@,
        },
{
    let chars = chars_vec(val);
    let has_sign = chars.len() > 0 && chars[0] == '+';
    let start: usize = if has_sign {
        1
    } else {
        0
    };
    assert(chars@.skip(start as int) == unsigned_digits(val@));
    match parse_digits_u64(&chars, start, usize::MAX as u64) {
        Some(v) if v > 0 => Ok(v as usize),
        _ => Err(val.to_owned()),
    }
}

/// Parse a `u64`: an optional `+` sign followed by one or more digits whose
/// value fits 64 bits; anything else is rejected with a message naming the
/// offending text.
pub fn parse_u64(val: &str) -> (r: Result<u64, String>)
    ensures
        match r {
            Ok(v) => is_unsigned_numeral(val@) && unsigned_value(val@) <= u64::MAX && v
                == unsigned_value(val@),
            Err(e) => !(is_unsigned_numeral(val@) && unsigned_value(val@) <= u64::MAX) && e@
                == "\""@ + val@ + "\" not a valid integer"@,
        },
{
    let chars = chars_vec(val);
    let has_sign = chars.len() > 0 && chars[0] == '+';
    let start: usize = if has_sign {
        1
    } else {
        0
    };
    assert(chars@.skip(start as int) == unsigned_digits(val@));
    match parse_digits_u64(&chars, start, u64::MAX) {
        Some(v) => Ok(v),
        None => Err(concat3("\"", val, "\" not a valid integer")),
    }
}

// ---------------------------------------------------------------------------
// Executable printing
// ---------------------------------------------------------------------------

/// Append the canonical decimal numeral of `n`.
pub fn push_decimal(out: &mut Vec<char>, n: u64)
    ensures
        final(out)@ == old(out)@ + dec_digits(n as nat),
    decreases n,
{
    if n < 10 {
        out.push(digit_of(n));
    } else {
        push_decimal(out, n / 10);
        out.push(digit_of(n % 10));
    }
}

/// The digit character for a value below ten.
fn digit_of(d: u64) -> (c: char)
    requires
        d < 10,
    ensures
        c == digit_char(d as int),
{
    if d == 0 { '0' }
    else if d == 1 { '1' }
    else if d == 2 { '2' }
    else if d == 3 { '3' }
    else if d == 4 { '4' }
    else if d == 5 { '5' }
    else if d == 6 { '6' }
    else if d == 7 { '7' }
    else if d == 8 { '8' }
    else { '9' }
}

/// Append the decimal numeral of `n`, right-aligned in `width` columns.
pub fn push_padded_decimal(out: &mut Vec<char>, n: u64, width: usize)
    ensures
        final(out)@ == old(out)@ + crate::chars::pad_left(dec_digits(n as nat), width as nat),
{
    let mut digits: Vec<char> = Vec::new();
    push_decimal(&mut digits, n);
    if digits.len() < width {
        crate::chars::push_spaces(out, width - digits.len());
    }
    crate::chars::push_all(out, &digits);
    assert(final(out)@ =~= old(out)@ + crate::chars::pad_left(
        dec_digits(n as nat),
        width as nat,
    ));
}

/// The canonical decimal numeral of a `u64`, as a string.
pub fn u64_string(n: u64) -> (s: String)
    ensures
        s@ == dec_digits(n as nat),
{
    let mut v: Vec<char> = Vec::new();
    push_decimal(&mut v, n);
    chars_string(&v)
}

} // verus!
