//! Response matching: the loose status-code check (the literal substring
//! formed of a space, the status code's decimal digits and a space) and the
//! optional content pattern, a regular expression applied to the decoded
//! response text.

use vstd::prelude::*;
use crate::text::{contains_chars, contains_seq, dec_digits};

verus! {

/// The substring whose presence in a response means the status matched:
/// a space, the code's decimal digits, a space.  Deliberately loose: it
/// matches `"HTTP/1.1 202 Accepted"` without parsing the status line, and
/// can also match the same digits elsewhere in the response.
pub open spec fn status_token(code: u16) -> Seq<char> {
    seq![' '] + dec_digits(code as nat) + seq![' ']
}

/// The status check: the token occurs somewhere in the text.
pub open spec fn status_found(text: Seq<char>, code: u16) -> bool {
    contains_seq(text, status_token(code))
}

/// Whether `text` contains the status token for `code`.
pub fn status_matches(text: &Vec<char>, code: u16) -> (r: bool)
    ensures
        r == status_found(text@, code),
{
    let mut token: Vec<char> = Vec::new();
    token.push(' ');
    crate::text::push_decimal(code as u64, &mut token);
    token.push(' ');
    proof {
        assert(token@ =~= status_token(code));
    }
    contains_chars(text, &token)
}

/// Whether `Regex::new` accepts `pattern`.  Stands for the regex crate's
/// syntax check, which depends on the pattern alone.
pub uninterp spec fn regex_compiles(pattern: Seq<char>) -> bool;

/// Whether the regular expression `pattern` matches somewhere in `text`.
/// Stands for the regex crate's match relation, which depends on the
/// pattern and the text alone.
pub uninterp spec fn regex_match(pattern: Seq<char>, text: Seq<char>) -> bool;

#[verifier::external_type_specification]
#[verifier::external_body]
pub struct ExRegex(regex::Regex);

/// A compiled content pattern.  The private fields tie the compiled
/// expression to the pattern text it was built from: the only constructor
/// is [`ContentMatcher::compile`].
pub struct ContentMatcher {
    pattern: String,
    regex: regex::Regex,
}

/// Relies on `regex::Regex::new`: success depends on the pattern alone,
/// and the returned value is the compiled form of that pattern.
#[verifier::external_body]
fn regex_new(pattern: &str) -> (r: Option<regex::Regex>)
    ensures
        r is Some <==> regex_compiles(pattern@),
{
    regex::Regex::new(pattern).ok()
}

/// Relies on `regex::Regex::is_match`: whether the expression compiled
/// from `m.pattern` matches anywhere in `text`, a function of the pattern
/// and the text alone.
#[verifier::external_body]
fn regex_is_match(m: &ContentMatcher, text: &str) -> (r: bool)
    ensures
        r == regex_match(m.pattern@, text@),
{
    m.regex.is_match(text)
}

impl ContentMatcher {
    /// The pattern text this matcher was compiled from.
    pub closed spec fn view(self) -> Seq<char> {
        self.pattern@
    }

    /// Compiles a content pattern once, before any probe runs.  Fails
    /// exactly when the pattern is not a valid regular expression.
    pub fn compile(pattern: String) -> (r: Option<ContentMatcher>)
        ensures
            r is Some <==> regex_compiles(pattern@),
            r is Some ==> r.unwrap().view() == pattern@,
    {
        match regex_new(pattern.as_str()) {
            Some(regex) => Some(ContentMatcher { pattern, regex }),
            None => None,
        }
    }

    /// Whether the pattern matches anywhere in `text`.
    pub fn is_match(&self, text: &str) -> (r: bool)
        ensures
            r == regex_match(self.view(), text@),
    {
        regex_is_match(self, text)
    }
}

/// The content check: true when no pattern is configured, else true
/// exactly when the pattern matches the text.
pub open spec fn content_found(matcher: Option<ContentMatcher>, text: Seq<char>) -> bool {
    match matcher {
        Some(m) => regex_match(m.view(), text),
        None => true,
    }
}

/// Whether the optional content pattern accepts `text`.
pub fn content_matches(matcher: &Option<ContentMatcher>, text: &str) -> (r: bool)
    ensures
        r == content_found(*matcher, text@),
{
    match matcher {
        Some(m) => m.is_match(text),
        None => true,
    }
}

} // verus!
