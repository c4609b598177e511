//! The regular-expression sets that grant access, from the `regex` crate.
//!
//! Which texts a set of patterns matches, and which pattern lists compile,
//! is the regex crate's business; the library names those answers and
//! relies on the few facts stated below.
use vstd::prelude::*;
use regex::RegexSet;
use regex::Error as PatternError;

verus! {

/// The `regex` crate's compiled set of patterns.
#[verifier::external_type_specification]
#[verifier::external_body]
pub struct ExRegexSet(RegexSet);

/// The `regex` crate's error for a pattern list that does not compile.
#[verifier::external_type_specification]
#[verifier::external_body]
pub struct ExRegexError(PatternError);

/// The patterns a compiled set was built from, in order.
pub uninterp spec fn regex_set_patterns(set: RegexSet) -> Seq<Seq<char>>;

/// Whether `RegexSet::new` compiles this list of patterns.
pub uninterp spec fn regex_set_compiles(patterns: Seq<Seq<char>>) -> bool;

/// Whether the regular expression `pattern` matches somewhere in
/// `haystack`, as the regex crate matches it.
pub uninterp spec fn pattern_matches(pattern: Seq<char>, haystack: Seq<char>) -> bool;

/// Whether one of these patterns matches somewhere in `haystack`.
pub open spec fn regex_set_matches(patterns: Seq<Seq<char>>, haystack: Seq<char>) -> bool {
    exists|i: int| 0 <= i < patterns.len() && #[trigger] pattern_matches(patterns[i], haystack)
}

/// `RegexSet::new`: compiles the patterns, or fails when one of them is not
/// a valid regular expression. Claimed of it: it succeeds exactly when
/// `regex_set_compiles` holds of the patterns; the set it returns holds those
/// patterns; an empty list always compiles (`RegexSet::empty` is built this
/// way and unwraps the result).
#[verifier::external_body]
pub(crate) fn regex_set_new(patterns: &Vec<String>) -> (r: Result<RegexSet, PatternError>)
    ensures
        r is Ok <==> regex_set_compiles(patterns.deep_view()),
        r matches Ok(set) ==> regex_set_patterns(set) == patterns.deep_view(),
        patterns@.len() == 0 ==> r is Ok,
{
    RegexSet::new(patterns)
}

/// `RegexSet::is_match`: "true if and only if one of the regexes in this set
/// matches the haystack given". Claimed of it, as documented: the answer is
/// whether one of the set's patterns matches the haystack
/// (`pattern_matches`); what a single pattern matches is the regex crate's
/// and is not stated.
#[verifier::external_body]
pub(crate) fn regex_set_is_match(set: &RegexSet, haystack: &str) -> (b: bool)
    ensures
        b == (exists|i: int|
            0 <= i < regex_set_patterns(*set).len() && #[trigger] pattern_matches(regex_set_patterns(*set)[i], haystack@)),
{
    set.is_match(haystack)
}

} // verus!
