//! Regular expressions: what is built from a pattern, and what it matches.
use vstd::prelude::*;

verus! {

/// `regex::Regex`, a built regex.
#[verifier::external_type_specification]
#[verifier::external_body]
pub struct ExCompiledRegex(regex::Regex);

/// `regex::Error`, the reason why a pattern built no regex.
#[verifier::external_type_specification]
#[verifier::external_body]
pub struct ExPatternError(regex::Error);

/// The texts in which a regex finds a match.
pub uninterp spec fn regex_language(re: regex::Regex) -> Set<Seq<char>>;

/// The texts in which the regex built from a pattern finds a match, with or
/// without regard to case; `None` where the pattern builds no regex.
pub uninterp spec fn pattern_language(pattern: Seq<char>, ignore_case: bool) -> Option<
    Set<Seq<char>>,
>;

/// Whether a character has a meaning of its own in a pattern.
pub open spec fn is_meta_character(c: char) -> bool {
    c == '\\' || c == '.' || c == '+' || c == '*' || c == '?' || c == '(' || c == ')' || c == '|'
        || c == '[' || c == ']' || c == '{' || c == '}' || c == '^' || c == '$' || c == '#' || c
        == '&' || c == '-' || c == '~'
}

/// A text with a backslash put before each of its meta characters.
pub open spec fn escaped(text: Seq<char>) -> Seq<char>
    decreases text.len(),
{
    if text.len() == 0 {
        text
    } else if is_meta_character(text.last()) {
        escaped(text.drop_last()).push('\\').push(text.last())
    } else {
        escaped(text.drop_last()).push(text.last())
    }
}

/// Calls `regex::Regex::is_match`. Trusted: whether a regex finds a match in a
/// text depends on the regex and the text alone.
#[verifier::external_body]
pub(crate) fn regex_is_match(re: &regex::Regex, text: &str) -> (r: bool)
    ensures
        r == regex_language(*re).contains(text@),
{
    re.is_match(text)
}

/// Calls `regex::RegexBuilder::build` on a builder for the pattern, with
/// `case_insensitive` set as asked. Trusted: whether the pattern builds, and
/// what the regex then matches, depend on the pattern and the flag alone.
#[verifier::external_body]
pub(crate) fn build_regex(pattern: &Vec<char>, ignore_case: bool) -> (r: Result<
    regex::Regex,
    regex::Error,
>)
    ensures
        match r {
            Ok(re) => pattern_language(pattern@, ignore_case) == Some(regex_language(re)),
            Err(_) => pattern_language(pattern@, ignore_case) is None,
        },
{
    let s: String = pattern.iter().collect();
    regex::RegexBuilder::new(&s).case_insensitive(ignore_case).build()
}

/// Calls `regex::escape`. Trusted: the result is the text with a backslash
/// before each meta character, and nothing else changed.
#[verifier::external_body]
pub(crate) fn escape(text: &Vec<char>) -> (r: Vec<char>)
    ensures
        r@ == escaped(text@),
{
    regex::escape(&text.iter().collect::<String>()).chars().collect()
}

} // verus!
