//! The line-filtering core of the grep utility: a compiled search pattern
//! and the selection of matching (or non-matching) lines.

use vstd::prelude::*;

use regex::RegexBuilder;

verus! {

#[verifier::external_type_specification]
#[verifier::external_body]
pub struct ExRegex(regex::Regex);

/// Whether the pattern, compiled with the given case sensitivity, matches
/// the text; a fixed property of the three arguments.
pub uninterp spec fn re_is_match(pattern: Seq<char>, case_insensitive: bool, text: Seq<char>) -> bool;

/// Whether the pattern text is a valid expression under the given case
/// sensitivity; a fixed property of the two arguments.
pub uninterp spec fn re_compiles(pattern: Seq<char>, case_insensitive: bool) -> bool;

/// A compiled search pattern, remembering its source text and case
/// sensitivity.
pub struct Pattern {
    regex: regex::Regex,
    source: String,
    case_insensitive: bool,
}

impl Pattern {
    /// The pattern text this was compiled from.
    pub closed spec fn pattern_chars(&self) -> Seq<char> {
        self.source@
    }

    pub closed spec fn is_case_insensitive(&self) -> bool {
        self.case_insensitive
    }

    /// Relies on `regex::RegexBuilder::build`: whether compilation succeeds
    /// is a function of the pattern text and the case flag (all other
    /// builder options stay at their defaults); on failure the syntax error
    /// is rendered as text.
    #[verifier::external_body]
    pub fn compile(pattern: &str, case_insensitive: bool) -> (r: Result<Pattern, String>)
        ensures
            r matches Ok(p) ==> p.pattern_chars() == pattern@ && p.is_case_insensitive()
                == case_insensitive,
            r is Ok <==> re_compiles(pattern@, case_insensitive),
    {
        match RegexBuilder::new(pattern).case_insensitive(case_insensitive).build() {
            Ok(regex) => Ok(Pattern { regex, source: pattern.to_owned(), case_insensitive }),
            Err(e) => Err(e.to_string()),
        }
    }

    /// Relies on `regex::Regex::is_match`: for one compiled pattern the
    /// answer is a function of the pattern text, its case sensitivity and
    /// the haystack alone.
    #[verifier::external_body]
    pub fn is_match(&self, text: &str) -> (r: bool)
        ensures
            r == re_is_match(self.pattern_chars(), self.is_case_insensitive(), text@),
    {
        self.regex.is_match(text)
    }
}

/// The lines kept by a pattern: those that match it, or, inverted, those
/// that do not.
pub open spec fn kept_lines(
    lines: Seq<String>,
    pattern: Seq<char>,
    case_insensitive: bool,
    invert: bool,
) -> Seq<String>
    decreases lines.len(),
{
    if lines.len() == 0 {
        Seq::<String>::empty()
    } else {
        kept_lines(lines.drop_last(), pattern, case_insensitive, invert) + if re_is_match(
            pattern,
            case_insensitive,
            lines.last()@,
        ) != invert {
            seq![lines.last()]
        } else {
            Seq::<String>::empty()
        }
    }
}

/// Filter one source's lines by the pattern, keeping the matching lines, or
/// exactly the others when `invert` is set.
pub fn find_lines(lines: &Vec<String>, pattern: &Pattern, invert: bool) -> (out: Vec<String>)
    ensures
        out@ == kept_lines(
            lines@,
            pattern.pattern_chars(),
            pattern.is_case_insensitive(),
            invert,
        ),
{
    let mut out: Vec<String> = Vec::new();
    let mut i: usize = 0;
    while i < lines.len()
        invariant
            i <= lines@.len(),
            out@ == kept_lines(
                lines@.take(i as int),
                pattern.pattern_chars(),
                pattern.is_case_insensitive(),
                invert,
            ),
        decreases lines@.len() - i,
    {
        let line: &String = &lines[i];
        if pattern.is_match(line.as_str()) != invert {
            out.push(line.clone());
        }
        proof {
            assert(lines@.take(i + 1).drop_last() =~= lines@.take(i as int));
            assert(lines@.take(i + 1).last() == lines@[i as int]);
        }
        i = i + 1;
    }
    assert(lines@.take(lines@.len() as int) =~= lines@);
    out
}

} // verus!
