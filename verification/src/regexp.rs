//! The regular-expression engine: the `regex` crate. A compiled expression
//! is opaque here; what it matches is known by name only.

use vstd::prelude::*;

verus! {

/// A compiled regular expression of the `regex` crate.
#[verifier::external_type_specification]
#[verifier::external_body]
pub struct ExRegex(regex::Regex);

/// What `Regex::new` makes of `source`, if it accepts it.
pub uninterp spec fn regex_compiled(source: Seq<char>) -> Option<regex::Regex>;

/// What `regex` finds in `input`: nothing, or for each of its capture
/// groups in order, the whole match left out, the text that the group
/// matched, if it took part in the match.
pub uninterp spec fn regex_captured(regex: regex::Regex, input: Seq<char>) -> Option<
    Seq<Option<Seq<char>>>,
>;

/// The captures of one match, with strings as sequences.
pub open spec fn captures_view(captures: Seq<Option<String>>) -> Seq<Option<Seq<char>>> {
    captures.map_values(
        |c: Option<String>|
            match c {
                Some(s) => Some(s@),
                None => None,
            },
    )
}

/// The view of the captures of a match, if there is one.
pub open spec fn match_view(m: Option<Vec<Option<String>>>) -> Option<Seq<Option<Seq<char>>>> {
    match m {
        Some(captures) => Some(captures_view(captures@)),
        None => None,
    }
}

/// Calls `Regex::new` and drops the engine's error where it refuses
/// `source`. Whether `source` compiles, and to what, depends on `source`
/// alone and is given its name.
#[verifier::external_body]
pub(crate) fn compile_regex(source: &str) -> (r: Option<regex::Regex>)
    ensures
        r == regex_compiled(source@),
{
    regex::Regex::new(source).ok()
}

/// Calls `Regex::captures` and copies out the text of each group but the
/// first, which is the whole match. The outcome depends on the expression
/// and on `input` alone and is given its name.
#[verifier::external_body]
pub(crate) fn regex_captures(regex: &regex::Regex, input: &str) -> (r: Option<Vec<Option<String>>>)
    ensures
        match_view(r) == regex_captured(*regex, input@),
{
    regex.captures(input).map(
        |found| found.iter().skip(1).map(|group| group.map(|m| m.as_str().to_string())).collect(),
    )
}

} // verus!
