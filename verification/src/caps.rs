//! Case handling around the search: detect the input's capitalization
//! pattern, normalize it for an extra search pass, and re-case the
//! suggested forms to match, as a pre/post transformation that leaves
//! the weight model untouched.

use vstd::prelude::*;

use vstd::string::StrSliceExecFns;
use vstd::string::StringExecFns;

verus! {

/// What `str::to_lowercase` returns for a given character sequence.
pub uninterp spec fn lower_of(s: Seq<char>) -> Seq<char>;

/// What `str::to_uppercase` returns for a given character sequence.
pub uninterp spec fn upper_of(s: Seq<char>) -> Seq<char>;

/// Relies on str::to_lowercase: Unicode-lowercases the string; the result
/// depends on the characters alone, and an empty string stays empty.
#[verifier::external_body]
pub fn lowercase(s: &str) -> (r: String)
    ensures
        r@ == lower_of(s@),
        s@.len() == 0 ==> r@.len() == 0,
{
    s.to_lowercase()
}

/// Relies on str::to_uppercase: Unicode-uppercases the string; the result
/// depends on the characters alone, and an empty string stays empty.
#[verifier::external_body]
pub fn uppercase(s: &str) -> (r: String)
    ensures
        r@ == upper_of(s@),
        s@.len() == 0 ==> r@.len() == 0,
{
    s.to_uppercase()
}

/// The capitalization pattern observed on an input word.
#[derive(Clone, Copy, Debug, PartialEq, Eq, Structural)]
pub enum CasePattern {
    /// Every cased character is upper-case.
    AllCaps,
    /// The first character is upper-case and the rest are lower-case.
    Capitalized,
    /// Anything else; suggestions pass through unchanged.
    Plain,
}

/// The word reads as its own upper-casing but not as its own
/// lower-casing.
pub open spec fn spec_is_all_caps(s: Seq<char>) -> bool {
    upper_of(s) == s && lower_of(s) != s
}

/// The word reads as its first character upper-cased followed by the
/// rest lower-cased, and differs from its own lower-casing.
pub open spec fn spec_is_capitalized(s: Seq<char>) -> bool {
    s.len() > 0 && upper_of(s.take(1)) + lower_of(s.skip(1)) == s && lower_of(s) != s
}

/// Observe the capitalization pattern of `input`: all-caps exactly when
/// the word reads as its own upper-casing and not as its own
/// lower-casing; capitalized exactly when it is not all-caps and reads as
/// its first character upper-cased with the rest lower-cased.
pub fn case_pattern(input: &str) -> (p: CasePattern)
    ensures
        (p == CasePattern::AllCaps) <==> spec_is_all_caps(input@),
        (p == CasePattern::Capitalized) <==> (!spec_is_all_caps(input@) && spec_is_capitalized(
            input@,
        )),
{
    let n = input.unicode_len();
    let owned: String = input.to_owned();
    let lower = lowercase(input);
    if n == 0 {
        proof {
            assert(lower@ =~= input@);
        }
        return CasePattern::Plain;
    }
    if lower.eq(&owned) {
        return CasePattern::Plain;
    }
    let upper = uppercase(input);
    if upper.eq(&owned) {
        return CasePattern::AllCaps;
    }
    let first = input.substring_char(0, 1);
    let rest = input.substring_char(1, n);
    proof {
        assert(first@ =~= input@.take(1));
        assert(rest@ =~= input@.skip(1));
    }
    let cap = uppercase(first).concat(lowercase(rest).as_str());
    if cap.eq(&owned) {
        return CasePattern::Capitalized;
    }
    CasePattern::Plain
}

/// `new` is `orig` re-cased to `pattern`: the whole word upper-cased for
/// an all-caps input, the first character upper-cased for a capitalized
/// input, unchanged otherwise.
pub open spec fn spec_recased(orig: Seq<char>, pattern: CasePattern, new: Seq<char>) -> bool {
    match pattern {
        CasePattern::AllCaps => new == upper_of(orig),
        CasePattern::Capitalized => if orig.len() > 0 {
            new == upper_of(orig.take(1)) + orig.skip(1)
        } else {
            new == orig
        },
        CasePattern::Plain => new == orig,
    }
}

/// Re-case a suggested form to the observed pattern of the input.
pub fn recase(value: &str, pattern: CasePattern) -> (r: String)
    ensures
        spec_recased(value@, pattern, r@),
{
    match pattern {
        CasePattern::AllCaps => uppercase(value),
        CasePattern::Capitalized => {
            let n = value.unicode_len();
            if n == 0 {
                value.to_owned()
            } else {
                let first = value.substring_char(0, 1);
                let rest = value.substring_char(1, n);
                proof {
                    assert(first@ =~= value@.take(1));
                    assert(rest@ =~= value@.skip(1));
                }
                uppercase(first).concat(rest)
            }
        },
        CasePattern::Plain => value.to_owned(),
    }
}

} // verus!
