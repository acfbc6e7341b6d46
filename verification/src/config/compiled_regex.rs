//! Compiled regexes, each kept together with the pattern and modes it was
//! compiled from. Only `compile` makes one.

use super::regex::RegexFlags;
use vstd::prelude::*;

verus! {

/// The compiled regular expressions of the `regex` crate.
#[verifier::external_type_specification]
#[verifier::external_body]
pub struct ExRegex(::regex::Regex);

/// What `regex::RegexBuilder::build` reports for `pattern` with the given
/// modes: nothing where the pattern compiles, else the text of its error.
pub uninterp spec fn regex_build_error(
    pattern: Seq<char>,
    case_insensitive: bool,
    multi_line: bool,
    dot_matches_new_line: bool,
) -> Option<Seq<char>>;

/// What `regex::Regex::replace_all` gives back for `haystack` and
/// `replacement` with a regex compiled from `pattern` with the given modes.
pub uninterp spec fn regex_replace_all(
    pattern: Seq<char>,
    case_insensitive: bool,
    multi_line: bool,
    dot_matches_new_line: bool,
    haystack: Seq<char>,
    replacement: Seq<char>,
) -> Seq<char>;

/// Compiles `pattern` with `regex::RegexBuilder`, the three modes set as
/// `modes` says, and keeps the compiled regex together with the pattern and
/// modes it was built from. Trusted: the result is success exactly when
/// `regex_build_error` names no error for these arguments, and an error
/// carries the text (`to_string`) of the `regex::Error` that `build` returned,
/// which is what `regex_build_error` names. That the outcome depends on the
/// pattern and the modes alone is what naming it claims.
#[verifier::external_body]
pub(crate) fn compile(pattern: &str, modes: RegexFlags) -> (res: Result<CompiledRegex, String>)
    ensures
        match res {
            Ok(re) => {
                &&& regex_build_error(
                    pattern@,
                    modes.case_insensitive,
                    modes.multi_line,
                    modes.dot_matches_new_line,
                ) is None
                &&& re.pattern() == pattern@
                &&& re.modes() == modes
            },
            Err(e) => regex_build_error(
                pattern@,
                modes.case_insensitive,
                modes.multi_line,
                modes.dot_matches_new_line,
            ) == Some(e@),
        },
{
    let mut builder = ::regex::RegexBuilder::new(pattern);
    builder.case_insensitive(modes.case_insensitive);
    builder.multi_line(modes.multi_line);
    builder.dot_matches_new_line(modes.dot_matches_new_line);
    match builder.build() {
        Ok(regex) => Ok(CompiledRegex { regex, pattern: pattern.to_string(), modes }),
        Err(e) => Err(e.to_string()),
    }
}

/// A compiled regex together with the pattern and modes it was compiled from.
#[derive(Debug)]
pub struct CompiledRegex {
    regex: ::regex::Regex,
    pattern: String,
    modes: RegexFlags,
}

impl CompiledRegex {
    /// The pattern this regex was compiled from.
    pub closed spec fn pattern(&self) -> Seq<char> {
        self.pattern@
    }

    /// The modes this regex was compiled with.
    pub closed spec fn modes(&self) -> RegexFlags {
        self.modes
    }

    /// The compiled regex held by this value.
    pub closed spec fn compiled(&self) -> ::regex::Regex {
        self.regex
    }

    /// The compiled regex itself, for matching.
    pub fn regex(&self) -> (r: &::regex::Regex)
        ensures
            *r == self.compiled(),
    {
        &self.regex
    }
}

/// Replaces every non-overlapping match of `re` in `haystack` with
/// `replacement` (where `$1`, `$2`, ... stand for capture groups), through
/// `regex::Regex::replace_all`. Trusted: the result is what
/// `regex_replace_all` names for the pattern and modes `re` was compiled
/// from; that holds because a `CompiledRegex` is only made by `compile`, which
/// stores the regex it built from the very pattern and modes it records.
#[verifier::external_body]
pub(crate) fn replace_all_matches(re: &CompiledRegex, haystack: &str, replacement: &str) -> (res:
    String)
    ensures
        res@ == regex_replace_all(
            re.pattern(),
            re.modes().case_insensitive,
            re.modes().multi_line,
            re.modes().dot_matches_new_line,
            haystack@,
            replacement@,
        ),
{
    re.regex.replace_all(haystack, replacement).into_owned()
}

} // verus!
