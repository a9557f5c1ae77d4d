//! The offset interpreter: a signed numeric argument selects between
//! "emit from the first record", "skip the first n - 1 records" and
//! "keep only the last n records".

use vstd::prelude::*;

use crate::chars::{chars_vec, chars_string};
use crate::numbers::{
    all_digits, dec_digits, digits_value, in_i64_range, is_signed_numeral, lemma_dec_digits,
    lemma_digits_value_nonneg, parse_digits_u64, push_decimal, signed_digits,
};

verus! {

/// The parsed form of an offset argument.
#[derive(Debug, PartialEq, Eq, Structural, Clone, Copy)]
pub enum TakeValue {
    /// The literal `+0`: emit every record from the first.
    PlusZero,
    /// `TakeNum(n)` with positive `n`: skip the first `n - 1` records and
    /// emit the rest. With `n` at most zero: emit only the last `|n|`
    /// records.
    TakeNum(i64),
}

/// An offset argument that does not match the numeric grammar, carrying the
/// offending text.
#[derive(Debug, Clone, PartialEq, Eq)]
pub struct FormatError {
    pub literal: String,
}

/// The offset grammar: an optional `+` or `-` sign followed by one or more
/// digits. A missing sign counts as negative.
pub open spec fn offset_value(s: Seq<char>) -> int {
    if s.len() > 0 && s[0] == '+' {
        digits_value(signed_digits(s))
    } else {
        -digits_value(signed_digits(s))
    }
}

/// What parsing an offset string yields; `None` is a format error.
pub open spec fn parse_offset(s: Seq<char>) -> Option<TakeValue> {
    if is_signed_numeral(s) && in_i64_range(offset_value(s)) {
        if s[0] == '+' && offset_value(s) == 0 {
            Some(TakeValue::PlusZero)
        } else {
            Some(TakeValue::TakeNum(offset_value(s) as i64))
        }
    } else {
        None
    }
}

/// Parse an offset argument. Exactly the strings of the grammar whose value
/// fits a 64-bit signed integer are accepted; every other string is rejected
/// with the offending text.
pub fn parse_num(val: &str) -> (r: Result<TakeValue, FormatError>)
    ensures
        match r {
            Ok(tv) => parse_offset(val@) == Some(tv),
            Err(e) => parse_offset(val@) is None && e.literal@ == val@,
        },
{
    let chars = chars_vec(val);
    let explicit_plus = chars.len() > 0 && chars[0] == '+';
    let has_sign = chars.len() > 0 && (chars[0] == '+' || chars[0] == '-');
    let start: usize = if has_sign {
        1
    } else {
        0
    };
    let cap: u64 = if explicit_plus {
        0x7fff_ffff_ffff_ffff
    } else {
        0x8000_0000_0000_0000
    };
    assert(chars@.skip(start as int) == signed_digits(val@));
    match parse_digits_u64(&chars, start, cap) {
        Some(v) => {
            proof {
                lemma_digits_value_nonneg(signed_digits(val@));
            }
            if explicit_plus {
                if v == 0 {
                    Ok(TakeValue::PlusZero)
                } else {
                    Ok(TakeValue::TakeNum(v as i64))
                }
            } else {
                if v == 0x8000_0000_0000_0000 {
                    Ok(TakeValue::TakeNum(i64::MIN))
                } else {
                    Ok(TakeValue::TakeNum(-(v as i64)))
                }
            }
        },
        None => Err(FormatError { literal: val.to_owned() }),
    }
}

/// The decimal numeral of `k` with an explicit sign.
pub open spec fn signed_numeral(k: int) -> Seq<char> {
    if k >= 0 {
        seq!['+'] + dec_digits(k as nat)
    } else {
        seq!['-'] + dec_digits((-k) as nat)
    }
}

/// Format an integer with an explicit sign, so that it parses back as an
/// offset.
pub fn format_signed(k: i64) -> (s: String)
    ensures
        s@ == signed_numeral(k as int),
{
    let mut v: Vec<char> = Vec::new();
    if k >= 0 {
        v.push('+');
        push_decimal(&mut v, k as u64);
    } else {
        v.push('-');
        let magnitude: u64 = if k == i64::MIN {
            0x8000_0000_0000_0000
        } else {
            (-k) as u64
        };
        push_decimal(&mut v, magnitude);
    }
    assert(v@ =~= signed_numeral(k as int));
    chars_string(&v)
}

/// Law: formatting an integer of magnitude at most `i64::MAX` with an
/// explicit sign and parsing it back yields `TakeNum` of the same integer,
/// except that zero, carrying its explicit plus sign, parses to the
/// from-the-start marker.
pub proof fn lemma_offset_round_trip(k: int)
    requires
        -i64::MAX <= k <= i64::MAX,
    ensures
        k != 0 ==> parse_offset(signed_numeral(k)) == Some(TakeValue::TakeNum(k as i64)),
        k == 0 ==> parse_offset(signed_numeral(k)) == Some(TakeValue::PlusZero),
{
    let s = signed_numeral(k);
    let m: nat = if k >= 0 {
        k as nat
    } else {
        (-k) as nat
    };
    lemma_dec_digits(m);
    let d = dec_digits(m);
    assert(s.skip(1) =~= d);
    assert(signed_digits(s) == d);
    assert(is_signed_numeral(s));
    if k >= 0 {
        assert(s[0] == '+');
        assert(offset_value(s) == k);
    } else {
        assert(s[0] == '-');
        assert(offset_value(s) == k);
    }
}

} // verus!
