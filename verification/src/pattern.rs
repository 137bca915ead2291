use vstd::prelude::*;

use crate::errors::SearchError;
use grep_matcher::Matcher as LineTester;

verus! {

#[verifier::external_type_specification]
#[verifier::external_body]
pub struct ExRegexMatcher(grep_regex::RegexMatcher);

/// Whether the pattern-matching engine accepts `pattern` when compiled with
/// the given case-insensitive and multiline flags.
pub uninterp spec fn pattern_ok(pattern: Seq<char>, ci: bool, ml: bool) -> bool;

/// What the engine answers when asked whether a haystack matches the pattern
/// compiled with the given flags: a function of the pattern, the flags and
/// the haystack alone.
pub uninterp spec fn line_matches(pattern: Seq<char>, ci: bool, ml: bool, line: Seq<char>) -> bool;

/// What a matcher was compiled from: enough to determine every answer it
/// will ever give.
pub struct MatchSpec {
    pub pattern: Seq<char>,
    pub ci: bool,
    pub ml: bool,
}

/// Whether a line matches under a given compilation key.
pub open spec fn line_hits(k: MatchSpec, line: Seq<char>) -> bool {
    line_matches(k.pattern, k.ci, k.ml, line)
}

/// A compiled matcher, kept together with what it was compiled from.
pub struct Matcher {
    regex: grep_regex::RegexMatcher,
    pattern: String,
    ci: bool,
    ml: bool,
}

impl Matcher {
    /// The pattern this matcher was compiled from.
    pub closed spec fn pattern(&self) -> Seq<char> {
        self.pattern@
    }

    /// Whether this matcher was compiled case-insensitively.
    pub closed spec fn case_insensitive(&self) -> bool {
        self.ci
    }

    /// Whether this matcher was compiled for multiline matching.
    pub closed spec fn multiline(&self) -> bool {
        self.ml
    }

    /// The compilation key of this matcher.
    pub open spec fn key(&self) -> MatchSpec {
        MatchSpec { pattern: self.pattern(), ci: self.case_insensitive(), ml: self.multiline() }
    }

    /// Relies on `grep_regex::RegexMatcherBuilder`: whether `build` accepts a
    /// pattern is a function of the pattern and the configured flags alone,
    /// and the matcher it returns is determined by them.
    #[verifier::external_body]
    fn compile_raw(pattern: &str, ci: bool, ml: bool) -> (r: Result<Matcher, String>)
        ensures
            r is Ok <==> pattern_ok(pattern@, ci, ml),
            r matches Ok(m) ==> (m.pattern() == pattern@ && m.case_insensitive() == ci
                && m.multiline() == ml),
    {
        let mut builder = grep_regex::RegexMatcherBuilder::new();
        if ci {
            builder.case_insensitive(true);
        }
        if ml {
            builder.multi_line(true).dot_matches_new_line(true);
        }
        match builder.build(pattern) {
            Ok(regex) => Ok(Matcher { regex, pattern: pattern.to_owned(), ci, ml }),
            Err(e) => Err(format!("{}", e)),
        }
    }

    /// Compiles `(pattern, case_insensitive, multiline)` into a matcher.
    /// Compilation failure is the distinct `InvalidPattern` error, the only
    /// error class that can occur before any traversal begins.
    pub fn compile(pattern: &str, case_insensitive: bool, multiline: bool) -> (r: Result<
        Matcher,
        SearchError,
    >)
        ensures
            r is Ok <==> pattern_ok(pattern@, case_insensitive, multiline),
            r matches Ok(m) ==> (m.pattern() == pattern@ && m.case_insensitive()
                == case_insensitive && m.multiline() == multiline),
            r matches Err(e) ==> e is InvalidPattern,
    {
        match Self::compile_raw(pattern, case_insensitive, multiline) {
            Ok(m) => Ok(m),
            Err(msg) => Err(SearchError::InvalidPattern(msg)),
        }
    }

    /// Relies on `grep_matcher::Matcher::is_match` as implemented by
    /// `grep_regex::RegexMatcher`: the answer is a function of the compiled
    /// pattern, the flags and the haystack alone. The fields of `Matcher`
    /// are private and only `compile_raw` builds one, so `regex` is always
    /// the matcher compiled from `pattern` under `ci` and `ml`.
    #[verifier::external_body]
    pub(crate) fn is_match(&self, line: &str) -> (r: bool)
        ensures
            r == line_matches(self.pattern(), self.case_insensitive(), self.multiline(), line@),
    {
        self.regex.is_match(line.as_bytes()).unwrap_or(false)
    }
}

} // verus!
