//! The reporting core of the test-file generator: the completion message,
//! with the line count grouped by thousands.

use vstd::prelude::*;
use vstd::string::StringExecFns;

use thousands::Separable;

use crate::chars::chars_string;
use crate::numbers::dec_digits;

verus! {

/// Digit text with a comma before every group of three digits, counted from
/// the right.
pub open spec fn comma_grouped(s: Seq<char>) -> Seq<char>
    decreases s.len(),
{
    if s.len() <= 3 {
        s
    } else {
        comma_grouped(s.take(s.len() - 3)) + seq![','] + s.skip(s.len() - 3)
    }
}

/// Relies on `thousands::Separable::separate_with_commas`: the comma policy
/// groups the decimal digits in threes from the right.
#[verifier::external_body]
fn with_commas(n: usize) -> (r: String)
    ensures
        r@ == comma_grouped(dec_digits(n as nat)),
{
    n.separate_with_commas()
}

/// The completion message naming how many lines were written where, with
/// the count grouped by thousands and the noun in the right number.
pub fn done_message(lines: usize, outfile: &str) -> (r: String)
    ensures
        r@ == "Done, wrote "@ + comma_grouped(dec_digits(lines as nat)) + (if lines == 1 {
            " line"@
        } else {
            " lines"@
        }) + " to \""@ + outfile@ + "\"."@,
{
    let mut r = String::new();
    r.append("Done, wrote ");
    r.append(with_commas(lines).as_str());
    if lines == 1 {
        r.append(" line");
    } else {
        r.append(" lines");
    }
    r.append(" to \"");
    r.append(outfile);
    r.append("\".");
    r
}

} // verus!
