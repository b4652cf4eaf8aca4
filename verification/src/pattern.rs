//! Regular-expression searches, done by the `regex` crate.

use vstd::prelude::*;

verus! {

/// Names of nodes of a scale set: a prefix without white space, `-vmss`, and
/// six characters out of `0-9a-z`.
pub const VMSS_NODE_PATTERN: &'static str = r"^\S+-vmss[0-9a-z]{6}$";

/// Names of scale sets: a prefix without white space, then `-vmss`.
pub const VMSS_NAME_PATTERN: &'static str = r"^\S+-vmss$";

/// Subscription identifiers: a GUID of 8-4-4-4-12 hexadecimal digits.
pub const SUBSCRIPTION_ID_PATTERN: &'static str =
    r"^[0-9a-fA-F]{8}-[0-9a-fA-F]{4}-[0-9a-fA-F]{4}-[0-9a-fA-F]{4}-[0-9a-fA-F]{12}$";

/// A date written as year, month and day of four, two and two digits.
pub const PATCH_DATE_PATTERN: &'static str = r"\d\d\d\d-\d\d-\d\d";

/// What the `regex` crate answers when `haystack` is searched for the regular
/// expression `pattern`: `None` where `pattern` is no expression that the
/// crate accepts, else whether some part of `haystack` matches it.
pub uninterp spec fn pattern_search(pattern: Seq<char>, haystack: Seq<char>) -> Option<bool>;

/// `regex::Regex::new` on `pattern` and, where that gives an expression,
/// `regex::Regex::is_match` of it on `haystack`. Nothing is proved of either;
/// the contract only gives the answer its name, `pattern_search`.
#[verifier::external_body]
pub(crate) fn search(pattern: &str, haystack: &str) -> (found: Option<bool>)
    ensures
        found == pattern_search(pattern@, haystack@),
{
    match regex::Regex::new(pattern) {
        Ok(expression) => Some(expression.is_match(haystack)),
        Err(_) => None,
    }
}

/// Whether a search found a match; a pattern that is no expression matches
/// nothing.
pub open spec fn is_found(found: Option<bool>) -> bool {
    found == Some(true)
}

/// Whether `haystack` holds a match of `pattern`.
pub open spec fn pattern_matches(pattern: Seq<char>, haystack: Seq<char>) -> bool {
    is_found(pattern_search(pattern, haystack))
}

} // verus!
