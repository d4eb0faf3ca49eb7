//! The patterns by which a track's description gives its start and end times.
//!
//! A description holds `<b>Start:</b> YYYY-MM-DD hh:mm:ss<br />` and
//! `<b>End:</b> YYYY-MM-DD hh:mm:ss`; the label may be surrounded by white
//! space. The patterns are matched by the `regex` crate.
use regex::Regex;
use vstd::prelude::*;

verus! {

#[verifier::external_type_specification]
#[verifier::external_body]
pub struct ExRegex(regex::Regex);

/// The pattern, in the syntax of the `regex` crate, of a date and time.
pub const DATETIME_PATTERN: &'static str = "(\\d{4}-\\d{2}-\\d{2} \\d{2}:\\d{2}:\\d{2})";

/// The pattern, in the syntax of the `regex` crate, of a labelled time:
/// `<b>\s*LABEL\s*:\s*</b>\s*` and a date and time, followed by `<br />`
/// when `has_br` holds.
pub open spec fn spec_time_pattern(label: Seq<char>, has_br: bool) -> Seq<char> {
    "<b>\\s*"@ + label + "\\s*:\\s*</b>\\s*"@ + DATETIME_PATTERN@ + (if has_br {
        "<br />"@
    } else {
        ""@
    })
}

/// Builds the pattern of a labelled time, in the syntax of the `regex`
/// crate.
pub fn create_time_pattern(label: &str, has_br: bool) -> (r: String)
    ensures
        r@ == spec_time_pattern(label@, has_br),
{
    let mut s = String::from_str("<b>\\s*");
    s.append(label);
    s.append("\\s*:\\s*</b>\\s*");
    s.append(DATETIME_PATTERN);
    let br = if has_br { "<br />" } else { "" };
    s.append(br);
    s
}

/// The pattern of the start time: `<b>Start:</b>`, a date and time, and a
/// line break.
pub open spec fn start_time_pattern() -> Seq<char> {
    spec_time_pattern("Start"@, true)
}

/// The pattern of the end time: `<b>End:</b>` and a date and time.
pub open spec fn end_time_pattern() -> Seq<char> {
    spec_time_pattern("End"@, false)
}

/// What group 1 of the leftmost match of a pattern captures in a text, as
/// `Regex::new(pattern)` and then `captures(text)` and `get(1)` give it
/// (`None` where the pattern does not match).
pub uninterp spec fn regex_first_capture(pattern: Seq<char>, text: Seq<char>) -> Option<Seq<char>>;

/// The text that group 1 of the leftmost match of a pattern captures, by
/// `Regex::new`, `Regex::captures` and `Captures::get`.
///
/// Claims that it is `regex_first_capture` of the pattern and the text. Only
/// the two time patterns are admitted: both are valid `regex` syntax, so
/// `Regex::new` does not fail on them.
#[verifier::external_body]
fn first_capture(pattern: &str, text: &str) -> (r: Option<String>)
    requires
        pattern@ == start_time_pattern() || pattern@ == end_time_pattern(),
    ensures
        r matches Some(s) ==> regex_first_capture(pattern@, text@) == Some(s@),
        r is None ==> regex_first_capture(pattern@, text@) is None,
{
    match Regex::new(pattern).unwrap().captures(text) {
        Some(c) => match c.get(1) {
            Some(m) => Some(m.as_str().to_string()),
            None => None,
        },
        None => None,
    }
}

/// The date and time that the start pattern captures in a description.
pub fn find_start_time(description: &str) -> (r: Option<String>)
    ensures
        r matches Some(s) ==> regex_first_capture(start_time_pattern(), description@) == Some(s@),
        r is None ==> regex_first_capture(start_time_pattern(), description@) is None,
{
    let pattern = create_time_pattern("Start", true);
    first_capture(pattern.as_str(), description)
}

/// The date and time that the end pattern captures in a description.
pub fn find_end_time(description: &str) -> (r: Option<String>)
    ensures
        r matches Some(s) ==> regex_first_capture(end_time_pattern(), description@) == Some(s@),
        r is None ==> regex_first_capture(end_time_pattern(), description@) is None,
{
    let pattern = create_time_pattern("End", false);
    first_capture(pattern.as_str(), description)
}

} // verus!
