//! Recognition of the line that opens a module.

use crate::error::{Failure, SplitError};
use crate::text::begins_with;
use regex::Regex;
use vstd::prelude::*;

verus! {

/// `regex::Regex`, a compiled regular expression. Nothing of its inside is
/// known here; it is carried from the call that compiles it to the calls
/// that search with it.
#[verifier::external_type_specification]
#[verifier::external_body]
pub struct ExRegex(regex::Regex);

/// `regex::Error`, the reason for which a pattern was not compiled.
#[verifier::external_type_specification]
#[verifier::external_body]
pub struct ExRegexError(regex::Error);

/// Whether `Regex::new` accepts `pattern`: whether it is a valid expression
/// that compiles within the size limit that `Regex::new` always sets.
pub uninterp spec fn pattern_accepted(pattern: Seq<char>) -> bool;

/// The text that `Regex::new` compiled the expression from: `Some(text)`
/// says that the expression was made by `Regex::new` from `text`, with no
/// options but the defaults; `None` stands for an expression that was built
/// in another way. For the first kind the text is what `Regex::as_str` hands
/// out.
pub uninterp spec fn regex_pattern(re: Regex) -> Option<Seq<char>>;

/// What `Regex::captures` finds in `haystack` for the expression that
/// `Regex::new` compiles from `pattern`: the text that `Captures::get` gives
/// for capture group number `group` in the leftmost match, `None` where
/// nothing matches, where the group takes no part in the match, or where
/// the pattern has no such group. The matching itself is the outside
/// crate's: it is named here, not defined.
pub uninterp spec fn group_text(pattern: Seq<char>, haystack: Seq<char>, group: nat) -> Option<
    Seq<char>,
>;

/// The keyword that a start boundary begins with, at column zero.
pub const KEYWORD: &'static str = "module";

/// The pattern of a start boundary: the keyword at column zero, whitespace,
/// and the module's identifier as the first group.
pub const MODULE_PATTERN: &'static str = r"^module\s+(\w+)";

/// The number of the capture group of [`MODULE_PATTERN`] that holds the
/// module's name.
pub const NAME_GROUP: usize = 1;

/// The name that a line opens a module with, if it is a start boundary: the
/// line begins with the keyword, and the pattern finds the name in it.
pub open spec fn start_boundary(line: Seq<char>) -> Option<Seq<char>> {
    if KEYWORD@.is_prefix_of(line) {
        group_text(MODULE_PATTERN@, line, NAME_GROUP as nat)
    } else {
        None
    }
}

/// Calls `Regex::new`. Trusted: the pattern alone decides whether it is
/// compiled, and an expression that was compiled was made from the very
/// text that was given.
#[verifier::external_body]
fn compile(pattern: &str) -> (r: Result<Regex, regex::Error>)
    ensures
        r is Ok <==> pattern_accepted(pattern@),
        r matches Ok(re) ==> regex_pattern(re) == Some(pattern@),
{
    Regex::new(pattern)
}

/// Calls `Regex::captures` on `line` and takes the text of the group
/// numbered `group` with `Captures::get`. Trusted: for an expression that
/// `Regex::new` compiled, the result is what its pattern finds in `line`,
/// the same for the same pattern, line and group.
#[verifier::external_body]
fn capture(re: &Regex, line: &str, group: usize) -> (r: Option<String>)
    ensures
        regex_pattern(*re) matches Some(pattern) ==> match r {
            Some(text) => group_text(pattern, line@, group as nat) == Some(text@),
            None => group_text(pattern, line@, group as nat) is None,
        },
{
    re.captures(line).and_then(|caps| caps.get(group)).map(|m| m.as_str().to_string())
}

/// A compiled recogniser of start boundaries, built once and shared by
/// reference over a whole scan.
pub struct BoundaryMatcher {
    re: Regex,
}

impl BoundaryMatcher {
    #[verifier::type_invariant]
    spec fn well_formed(self) -> bool {
        regex_pattern(self.re) == Some(MODULE_PATTERN@)
    }

    /// Builds the recogniser: it is returned if and only if the boundary
    /// pattern is accepted for compilation, and that is the only failure.
    pub fn new() -> (r: Result<BoundaryMatcher, SplitError>)
        ensures
            r is Ok <==> pattern_accepted(MODULE_PATTERN@),
            r is Err ==> r->Err_0@ == Failure::PatternRejected,
    {
        match compile(MODULE_PATTERN) {
            Ok(re) => Ok(BoundaryMatcher { re }),
            Err(_) => Err(SplitError::PatternRejected),
        }
    }

    /// The module name that `line` opens, if `line` is a start boundary.
    pub fn module_name(&self, line: &str) -> (r: Option<String>)
        ensures
            match r {
                Some(name) => start_boundary(line@) == Some(name@),
                None => start_boundary(line@) is None,
            },
    {
        // Most lines do not begin with the keyword: they are turned away
        // before the pattern is tried.
        if !begins_with(line, KEYWORD) {
            return None;
        }
        proof {
            use_type_invariant(self);
        }
        capture(&self.re, line, NAME_GROUP)
    }
}

} // verus!
