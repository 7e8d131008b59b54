//! Whole-text regular expression matching, as configuration filters, tag
//! rules and dependency patterns use it.
use vstd::prelude::*;

use crate::text::push_str;

verus! {

#[verifier::external_type_specification]
#[verifier::external_body]
pub struct ExRegex(regex::Regex);

/// Whether the `regex` crate accepts `pattern` (`Regex::new` succeeds).
pub uninterp spec fn regex_compiles(pattern: Seq<char>) -> bool;

/// Whether the expression compiled from `pattern` matches somewhere in
/// `haystack` (`Regex::is_match`).
pub uninterp spec fn regex_finds(pattern: Seq<char>, haystack: Seq<char>) -> bool;

/// A compiled regular expression together with the pattern it was compiled
/// from. Values are only made by `compile`, so `regex` is always the
/// compilation of `source`.
pub struct CompiledPattern {
    source: String,
    regex: regex::Regex,
}

impl CompiledPattern {
    pub closed spec fn source(&self) -> Seq<char> {
        self.source@
    }
}

/// `regex::Regex::new`: compiles `pattern`; `None` exactly when the crate
/// rejects it.
#[verifier::external_body]
fn regex_new(pattern: &str) -> (r: Option<regex::Regex>)
    ensures
        r is Some <==> regex_compiles(pattern@),
{
    regex::Regex::new(pattern).ok()
}

/// `regex::Regex::is_match`: whether the compiled pattern matches somewhere in
/// `haystack`.
#[verifier::external_body]
fn regex_is_match(p: &CompiledPattern, haystack: &str) -> (b: bool)
    ensures
        b == regex_finds(p.source(), haystack@),
{
    p.regex.is_match(haystack)
}

/// Compiles `pattern`.
pub fn compile(pattern: &str) -> (r: Option<CompiledPattern>)
    ensures
        r is Some <==> regex_compiles(pattern@),
        r matches Some(c) ==> c.source() == pattern@,
{
    match regex_new(pattern) {
        Some(regex) => Some(CompiledPattern { source: pattern.to_owned(), regex }),
        None => None,
    }
}

/// Whether a compiled pattern matches somewhere in `haystack`.
pub fn is_match(p: &CompiledPattern, haystack: &str) -> (b: bool)
    ensures
        b == regex_finds(p.source(), haystack@),
{
    regex_is_match(p, haystack)
}

/// `pattern` anchored at both ends: `^(?:pattern)$`.
pub open spec fn anchored(pattern: Seq<char>) -> Seq<char> {
    "^(?:"@ + pattern + ")$"@
}

/// `value` is matched as a whole by `pattern`; a pattern that does not
/// compile matches nothing.
pub open spec fn full_match(pattern: Seq<char>, value: Seq<char>) -> bool {
    regex_compiles(anchored(pattern)) && regex_finds(anchored(pattern), value)
}

/// The anchored form of `pattern`.
pub fn anchored_pattern(pattern: &str) -> (r: String)
    ensures
        r@ == anchored(pattern@),
{
    let mut r = String::new();
    push_str(&mut r, "^(?:");
    push_str(&mut r, pattern);
    push_str(&mut r, ")$");
    proof {
        assert(r@ =~= anchored(pattern@));
    }
    r
}

/// Whether `pattern` matches all of `value`.
pub fn matches_entire(pattern: &str, value: &str) -> (b: bool)
    ensures
        b == full_match(pattern@, value@),
{
    let full = anchored_pattern(pattern);
    match compile(full.as_str()) {
        Some(regex) => is_match(&regex, value),
        None => false,
    }
}

} // verus!
