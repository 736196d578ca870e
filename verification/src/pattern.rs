//! The regular expressions that normalise whitespace, and the calls that run them.
use vstd::prelude::*;
use regex::Regex;

verus! {

/// The blanks at the end of a text.
pub const INDENT_MATCH: &'static str = "([[:blank:]]*)$";

/// A block opening, block end or comment that stands alone on the last line.
pub const END_WP_TRIMMER: &'static str =
    "(\r?\n)[[:blank:]]*(\\{\\{~?[#!/](?:\\}?[^}])*\\}\\})[[:blank:]]*(?:\r?\n)?\\z";

/// A partial that stands alone on the last line.
pub const PARTIAL_END_WP_TRIMMER: &'static str =
    "(\r?\n[[:blank:]]*)(\\{\\{~?>(?:\\}?[^}])*\\}\\})[[:blank:]]*(?:\r?\n)?\\z";

/// Whitespace that ends with a line break and blanks.
pub const TRIM_LEAD_SPACE_MATCHER: &'static str = "((?:[[:blank:]]|\r?\n)*)(\r?\n)[[:blank:]]*$";

/// Whitespace that starts with blanks and a line break.
pub const TRIM_TRAIL_SPACE_MATCHER: &'static str = "^([[:blank:]]*\r?\n)";

/// What replaces a match of the two end trimmers: its first two groups.
pub const END_REPLACEMENT: &'static str = "$1$2";

/// The error of `regex::Regex::new`, which the library carries as it stands.
#[verifier::external_type_specification]
#[verifier::external_body]
pub struct ExRegexError(regex::Error);

/// The groups of the first match of `pattern` in `text`, each with the text it
/// took part in, if any: `Ok(None)` where nothing matches, `Err` where the
/// pattern is not a regular expression.
pub uninterp spec fn captures_of(pattern: Seq<char>, text: Seq<char>) -> Result<
    Option<Seq<Option<Seq<char>>>>,
    (),
>;

/// `text` with every match of `pattern` replaced by `replacement`, in which `$1`
/// and the like stand for the groups of the match; `Err` where the pattern is not
/// a regular expression.
pub uninterp spec fn replace_all_of(pattern: Seq<char>, text: Seq<char>, replacement: Seq<char>) -> Result<
    Seq<char>,
    (),
>;

/// The texts of a match's groups.
pub open spec fn groups_view(groups: Vec<Option<String>>) -> Seq<Option<Seq<char>>> {
    Seq::new(
        groups@.len(),
        |i: int|
            match groups@[i] {
                Some(s) => Some(s@),
                None => None,
            },
    )
}

/// The view of what `regex_captures` hands back.
pub open spec fn captures_view(r: Result<Option<Vec<Option<String>>>, regex::Error>) -> Result<
    Option<Seq<Option<Seq<char>>>>,
    (),
> {
    match r {
        Ok(Some(groups)) => Ok(Some(groups_view(groups))),
        Ok(None) => Ok(None),
        Err(_) => Err(()),
    }
}

/// The view of what `regex_replace_all` hands back.
pub open spec fn replaced_view(r: Result<String, regex::Error>) -> Result<Seq<char>, ()> {
    match r {
        Ok(s) => Ok(s@),
        Err(_) => Err(()),
    }
}

/// Compiles `pattern` with `regex::Regex::new` and runs `Regex::captures` on
/// `text`. The contract only names the outcome: what a pattern matches is the
/// regular expression engine's matter.
#[verifier::external_body]
pub(crate) fn regex_captures(pattern: &str, text: &str) -> (r: Result<
    Option<Vec<Option<String>>>,
    regex::Error,
>)
    ensures
        captures_view(r) == captures_of(pattern@, text@),
{
    let re = Regex::new(pattern)?;
    Ok(re.captures(text).map(|found| found.iter().map(|m| m.map(|m| m.as_str().to_string())).collect()))
}

/// Compiles `pattern` with `regex::Regex::new` and runs `Regex::replace_all` on
/// `text`. The contract only names the outcome.
#[verifier::external_body]
pub(crate) fn regex_replace_all(pattern: &str, text: &str, replacement: &str) -> (r: Result<
    String,
    regex::Error,
>)
    ensures
        replaced_view(r) == replace_all_of(pattern@, text@, replacement@),
{
    let re = Regex::new(pattern)?;
    Ok(re.replace_all(text, replacement).into_owned())
}

} // verus!
