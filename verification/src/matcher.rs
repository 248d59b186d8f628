//! What a candidate's text is tested against: a prefix, a suffix, or both.

use crate::text::{
    check_prefix_match, check_suffix_match, fold_pattern, folded, lemma_prefix_by_bytes,
    lemma_suffix_by_bytes,
};
use vstd::prelude::*;

verus! {

/// The patterns of a search, as they are compared.
pub enum MatchType {
    Prefix(String),
    Suffix(String),
    Both(String, String),
}

/// The mathematical content of a [`MatchType`].
pub enum MatchSpec {
    Prefix(Seq<char>),
    Suffix(Seq<char>),
    Both(Seq<char>, Seq<char>),
}

impl View for MatchType {
    type V = MatchSpec;

    open spec fn view(&self) -> MatchSpec {
        match self {
            MatchType::Prefix(p) => MatchSpec::Prefix(p@),
            MatchType::Suffix(s) => MatchSpec::Suffix(s@),
            MatchType::Both(p, s) => MatchSpec::Both(p@, s@),
        }
    }
}

/// The characters of an optional text.
pub open spec fn chars_of(text: Option<String>) -> Option<Seq<char>> {
    match text {
        Some(t) => Some(t@),
        None => None,
    }
}

/// The patterns that a search is built with: each given pattern folded once;
/// with neither given, the empty prefix, which every text begins with.
pub open spec fn match_spec(
    prefix: Option<Seq<char>>,
    suffix: Option<Seq<char>>,
    case_insensitive: bool,
) -> MatchSpec {
    match (prefix, suffix) {
        (Some(p), Some(s)) => MatchSpec::Both(
            folded(p, case_insensitive),
            folded(s, case_insensitive),
        ),
        (Some(p), None) => MatchSpec::Prefix(folded(p, case_insensitive)),
        (None, Some(s)) => MatchSpec::Suffix(folded(s, case_insensitive)),
        (None, None) => MatchSpec::Prefix(Seq::empty()),
    }
}

/// Whether `text` satisfies the patterns.
pub open spec fn spec_matches(patterns: MatchSpec, text: Seq<char>) -> bool {
    match patterns {
        MatchSpec::Prefix(p) => p.is_prefix_of(text),
        MatchSpec::Suffix(s) => s.is_suffix_of(text),
        MatchSpec::Both(p, s) => p.is_prefix_of(text) && s.is_suffix_of(text),
    }
}

/// With no pattern given, every text matches.
pub proof fn lemma_default_matches_all(case_insensitive: bool, text: Seq<char>)
    ensures
        spec_matches(match_spec(None, None, case_insensitive), text),
{
    assert(Seq::<char>::empty() =~= text.subrange(0, 0));
}

impl MatchType {
    /// Builds the patterns of a search from what the caller supplied.
    pub fn new(
        prefix: Option<String>,
        suffix: Option<String>,
        case_insensitive: bool,
    ) -> (out: MatchType)
        ensures
            out@ == match_spec(chars_of(prefix), chars_of(suffix), case_insensitive),
    {
        match (prefix, suffix) {
            (Some(p), Some(s)) => MatchType::Both(
                fold_pattern(p, case_insensitive),
                fold_pattern(s, case_insensitive),
            ),
            (Some(p), None) => MatchType::Prefix(fold_pattern(p, case_insensitive)),
            (None, Some(s)) => MatchType::Suffix(fold_pattern(s, case_insensitive)),
            (None, None) => MatchType::Prefix(String::new()),
        }
    }

    /// Tests a text, already folded as the patterns were, against them.
    pub fn matches(&self, text: &str) -> (found: bool)
        ensures
            found == spec_matches(self@, text@),
    {
        match self {
            MatchType::Prefix(prefix) => {
                proof {
                    lemma_prefix_by_bytes(prefix@, text@);
                }
                check_prefix_match(text, prefix.as_str().as_bytes())
            },
            MatchType::Suffix(suffix) => {
                proof {
                    lemma_suffix_by_bytes(suffix@, text@);
                }
                check_suffix_match(text, suffix.as_str().as_bytes())
            },
            MatchType::Both(prefix, suffix) => {
                proof {
                    lemma_prefix_by_bytes(prefix@, text@);
                    lemma_suffix_by_bytes(suffix@, text@);
                }
                check_prefix_match(text, prefix.as_str().as_bytes()) && check_suffix_match(
                    text,
                    suffix.as_str().as_bytes(),
                )
            },
        }
    }
}

} // verus!
