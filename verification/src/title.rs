//! Reading the title of a release heading.

use regex::Regex;
use vstd::prelude::*;
use crate::request::{eq_ignoring_case, same_ignoring_case};

verus! {

/// The shape of a release title: a version in square brackets, then
/// optionally a hyphen between two spaces and a date.
pub const RELEASE_PATTERN: &'static str = "^\\[(?P<version>.*)\\](?: - (?P<date>.*))?$";

/// The name of the group of `RELEASE_PATTERN` that holds the version.
pub const VERSION_GROUP: &'static str = "version";

/// The version that stands for the release in the making.
pub const UNRELEASED: &'static str = "unreleased";

/// What the regex engine finds for a named group: `None` where the pattern
/// does not compile or has no group of that name, where the text does not
/// match it, or where the group took no part in the match; else the part of
/// the text that the group matched.
pub uninterp spec fn named_capture(pattern: Seq<char>, haystack: Seq<char>, group: Seq<char>) -> Option<Seq<char>>;

/// The characters of an optional text.
pub open spec fn text_of(found: Option<String>) -> Option<Seq<char>> {
    match found {
        Some(text) => Some(text@),
        None => None,
    }
}

/// Compiles `pattern` with `regex::Regex::new`, searches `haystack` with
/// `Regex::captures` and reads the group with `Captures::name`. The contract
/// only gives the outcome its name, `named_capture`: the engine's result is
/// a function of the three texts, and nothing more is claimed of it.
#[verifier::external_body]
fn capture_named(pattern: &str, haystack: &str, group: &str) -> (found: Option<String>)
    ensures
        text_of(found) == named_capture(pattern@, haystack@, group@),
{
    let compiled = Regex::new(pattern).ok()?;
    let captures = compiled.captures(haystack)?;
    let matched = captures.name(group)?;
    Some(matched.as_str().to_string())
}

/// What a release title asks of the patcher.
#[derive(Clone, Copy, Debug, PartialEq, Eq, Structural)]
pub enum Target {
    /// The title has not the shape of a release title.
    Malformed,
    /// The title names a version that was released.
    Released,
    /// The title names the release in the making.
    Unreleased,
}

/// The target for a version that was, or was not, read from a title.
pub open spec fn target_of(version: Option<Seq<char>>) -> Target {
    match version {
        None => Target::Malformed,
        Some(v) => if same_ignoring_case(v, UNRELEASED@) {
            Target::Unreleased
        } else {
            Target::Released
        },
    }
}

/// The target that a release title gives.
pub open spec fn release_target(title: Seq<char>) -> Target {
    target_of(named_capture(RELEASE_PATTERN@, title, VERSION_GROUP@))
}

/// Decides the target from the version that was read from a title, `None`
/// standing for a title without the shape of a release title.
pub fn classify(version: Option<String>) -> (t: Target)
    ensures
        t == target_of(text_of(version)),
{
    match version {
        None => Target::Malformed,
        Some(v) => {
            if eq_ignoring_case(v.as_str(), UNRELEASED) {
                Target::Unreleased
            } else {
                Target::Released
            }
        },
    }
}

/// Reads a release title and decides the target.
pub fn read_title(title: &str) -> (t: Target)
    ensures
        t == release_target(title@),
{
    classify(capture_named(RELEASE_PATTERN, title, VERSION_GROUP))
}

} // verus!
