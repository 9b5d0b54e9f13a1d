use regex::Regex;
use vstd::prelude::*;

use crate::error::KasmError;
use crate::text::same_text;

verus! {

/// `regex::Regex`, taken as a whole: what it matches is only learnt through
/// the functions below.
#[verifier::external_type_specification]
#[verifier::external_body]
pub struct ExRegex(regex::Regex);

/// `regex::Error`, taken as a whole.
#[verifier::external_type_specification]
#[verifier::external_body]
pub struct ExRegexError(regex::Error);

/// What `regex::Regex::new` returns for a pattern: the compiled expression,
/// or `None` where it reports an error.
pub uninterp spec fn regex_compile(pattern: Seq<char>) -> Option<Regex>;

/// What `regex::Regex::captures` finds for capture group `group` in the first
/// match of `re` in `text`: the text of that group, or `None` where there is
/// no match or the group took no part in it.
pub uninterp spec fn regex_group(re: Regex, text: Seq<char>, group: nat) -> Option<Seq<char>>;

/// Whether `regex::Regex::is_match` finds a match of `re` anywhere in `text`.
pub uninterp spec fn regex_is_match(re: Regex, text: Seq<char>) -> bool;

/// The capture group that carries the unit id.
pub const UNIT_GROUP: usize = 1;

/// Calls `regex::Regex::new`. The contract only gives the outcome its name:
/// the same pattern compiles to the same expression, or fails, every time.
#[verifier::external_body]
fn compile(pattern: &str) -> (r: Result<Regex, regex::Error>)
    ensures
        match r {
            Ok(re) => regex_compile(pattern@) == Some(re),
            Err(_) => regex_compile(pattern@) is None,
        },
{
    Regex::new(pattern)
}

/// Calls `regex::Regex::captures` and copies out the text of one group with
/// `Captures::get` and `Match::as_str`. The contract only gives the outcome
/// its name.
#[verifier::external_body]
fn capture_group(re: &Regex, text: &str, group: usize) -> (r: Option<String>)
    ensures
        r.deep_view() == regex_group(*re, text@, group as nat),
{
    re.captures(text).and_then(|caps| caps.get(group)).map(|m| m.as_str().to_string())
}

/// Calls `regex::Regex::is_match`. The contract only gives the outcome its
/// name.
#[verifier::external_body]
fn has_match(re: &Regex, text: &str) -> (r: bool)
    ensures
        r == regex_is_match(*re, text@),
{
    re.is_match(text)
}

/// A compiled regular expression whose first capture group is the unit id.
pub struct PatternMatcher {
    regex: Regex,
}

impl PatternMatcher {
    /// The matcher that `pattern` compiles to; `None` for a malformed one.
    pub closed spec fn compiled(pattern: Seq<char>) -> Option<PatternMatcher> {
        match regex_compile(pattern) {
            Some(re) => Some(PatternMatcher { regex: re }),
            None => None,
        }
    }

    /// The unit id that the matcher reads out of `text`.
    pub closed spec fn unit_of(&self, text: Seq<char>) -> Option<Seq<char>> {
        regex_group(self.regex, text, UNIT_GROUP as nat)
    }

    /// Whether the matcher finds its expression anywhere in `text`.
    pub closed spec fn admits(&self, text: Seq<char>) -> bool {
        regex_is_match(self.regex, text)
    }

    /// Compiles `pattern`; a malformed one is refused.
    pub fn new(pattern: &str) -> (r: Result<PatternMatcher, KasmError>)
        ensures
            match r {
                Ok(m) => Self::compiled(pattern@) == Some(m),
                Err(e) => e == KasmError::BadPattern && Self::compiled(pattern@) is None,
            },
    {
        match compile(pattern) {
            Ok(regex) => Ok(PatternMatcher { regex }),
            Err(_) => Err(KasmError::BadPattern),
        }
    }

    /// Reads the unit id out of `text`: what the first capture group holds
    /// in the first match.
    pub fn classify(&self, text: &str) -> (r: Option<String>)
        ensures
            r.deep_view() == self.unit_of(text@),
    {
        capture_group(&self.regex, text, UNIT_GROUP)
    }

    /// Says whether the expression is found anywhere in `text`.
    pub fn is_match(&self, text: &str) -> (r: bool)
        ensures
            r == self.admits(text@),
    {
        has_match(&self.regex, text)
    }
}

/// Whether what the matcher read out of a text is the unit `unit`: it read
/// something, a unit is asked for, and the two are the same text.
pub open spec fn is_unit_id(class: Option<Seq<char>>, unit: Option<Seq<char>>) -> bool {
    class is Some && class == unit
}

/// Holds what a matcher read out of a text against the unit asked for.
pub fn belongs_to(class: &Option<String>, unit: Option<&str>) -> (r: bool)
    ensures
        r == is_unit_id(class.deep_view(), unit.deep_view()),
{
    match (class, unit) {
        (Some(found), Some(wanted)) => same_text(found.as_str(), wanted),
        _ => false,
    }
}

} // verus!
