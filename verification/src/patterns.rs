//! The format patterns of the classifier, matched by the `regex` crate.

use vstd::prelude::*;

verus! {

/// A date as year, month and day with dashes between them.
pub const DATE_DASHED: &'static str = r"^\d{4}-\d{2}-\d{2}$";

/// A date as two pairs of digits and a year with slashes between them.
pub const DATE_SLASHED: &'static str = r"^\d{2}/\d{2}/\d{4}$";

/// A dashed date, `T` or a space, hours and minutes, then optional seconds,
/// an optional fraction of a second and an optional zone.
pub const DATETIME: &'static str = r"^\d{4}-\d{2}-\d{2}[T ]\d{2}:\d{2}(:\d{2})?(\.\d+)?(Z|[+-]\d{2}:?\d{2})?$";

/// Hours and minutes, then optional seconds and an optional fraction.
pub const TIME: &'static str = r"^\d{2}:\d{2}(:\d{2})?(\.\d+)?$";

/// A local part, `@`, and a dotted domain that ends in two letters or more.
pub const EMAIL: &'static str = r"^[a-zA-Z0-9._%+-]+@[a-zA-Z0-9.-]+\.[a-zA-Z]{2,}$";

/// An optional scheme, a dotted host that ends in two letters or more, and
/// an optional path.
pub const URL: &'static str = r"^(https?://)?[a-zA-Z0-9.-]+\.[a-zA-Z]{2,}(/[^\s]*)?$";

/// Four groups of one to three digits with periods between them.
pub const IPV4: &'static str = r"^\d{1,3}\.\d{1,3}\.\d{1,3}\.\d{1,3}$";

/// Eight groups of one to four hexadecimal digits with colons between them.
pub const IPV6: &'static str = r"^([0-9a-fA-F]{1,4}:){7}[0-9a-fA-F]{1,4}$";

/// Whether the regular expression written as `pattern` finds a match in
/// `text`, as the `regex` crate decides it; false where `pattern` is not a
/// valid expression.
pub uninterp spec fn regex_is_match(pattern: Seq<char>, text: Seq<char>) -> bool;

/// Compiles `pattern` once with `regex::Regex::new` and asks
/// `Regex::is_match` about each of `texts` in turn. Each answer depends on
/// the pattern and the text alone, so the contract gives it the name
/// `regex_is_match`; nothing more is claimed of it. A pattern that does not
/// compile matches nothing.
#[verifier::external_body]
pub(crate) fn matches_each(pattern: &str, texts: &Vec<String>) -> (found: Vec<bool>)
    ensures
        found@.len() == texts@.len(),
        forall|i: int|
            0 <= i < texts@.len() ==> found@[i] == regex_is_match(pattern@, #[trigger] texts@[i]@),
{
    match regex::Regex::new(pattern) {
        Ok(expression) => texts.iter().map(|text| expression.is_match(text)).collect(),
        Err(_) => texts.iter().map(|_| false).collect(),
    }
}

} // verus!
