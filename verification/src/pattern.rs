//! Regular expressions, as the `regex` crate compiles, matches and replaces
//! them.

use vstd::prelude::*;

verus! {

/// A compiled regular expression of the `regex` crate.
#[verifier::external_type_specification]
#[verifier::external_body]
pub struct ExRegex(regex::Regex);

/// The pattern that `Regex::new` compiles to an expression.
pub uninterp spec fn pattern_of(expression: regex::Regex) -> Seq<char>;

/// Why `Regex::new` refuses a pattern, as its error prints, or nothing where it
/// accepts the pattern.
pub uninterp spec fn refusal(pattern: Seq<char>) -> Option<Seq<char>>;

/// Whether the expression that `pattern` compiles to matches somewhere in
/// `text`.
pub uninterp spec fn matched(pattern: Seq<char>, text: Seq<char>) -> bool;

/// `text` with every match of `pattern` replaced, references to groups in
/// `replacement` expanded.
pub uninterp spec fn substituted(
    pattern: Seq<char>,
    text: Seq<char>,
    replacement: Seq<char>,
) -> Seq<char>;

/// Whether the `regex` crate accepts a pattern.
pub open spec fn is_pattern(pattern: Seq<char>) -> bool {
    refusal(pattern) is None
}

/// Calls `Regex::new`, and turns its error into the text that it prints. The
/// contract claims that the outcome is a function of the pattern, and that the
/// expression is the pattern's. The crate refuses an expression that takes too
/// much memory when compiled; as it counts bytes, a pattern at that limit may be
/// refused by a build for a wider machine word only.
#[verifier::external_body]
pub(crate) fn compile(pattern: &str) -> (result: Result<regex::Regex, String>)
    ensures
        result is Ok <==> is_pattern(pattern@),
        result matches Ok(expression) ==> pattern_of(expression) == pattern@,
        result matches Err(message) ==> refusal(pattern@) == Some(message@),
{
    regex::Regex::new(pattern).map_err(|error| error.to_string())
}

/// Calls `Regex::is_match`, which tells whether the expression matches
/// somewhere in the text: a function of the expression's pattern and the text.
#[verifier::external_body]
pub(crate) fn finds(expression: &regex::Regex, text: &str) -> (found: bool)
    ensures
        found == matched(pattern_of(*expression), text@),
{
    expression.is_match(text)
}

/// Calls `Regex::replace_all`, which replaces every match in the text: a
/// function of the expression's pattern, the text and the replacement.
#[verifier::external_body]
pub(crate) fn substitute(expression: &regex::Regex, text: &str, replacement: &str) -> (result: String)
    ensures
        result@ == substituted(pattern_of(*expression), text@, replacement@),
{
    expression.replace_all(text, replacement).into_owned()
}

} // verus!
