//! Applying one replacement rule to a text.

use crate::config::compiled_regex::{regex_build_error, regex_replace_all, replace_all_matches};
use crate::config::regex::{
    build_regex, js_regex_parts, known_flag, lemma_build_uses_exactly_the_flags,
    lemma_js_regex_roundtrip, parse_js_regex, regex_build_outcome,
};
use crate::config::loader::{
    config_problem, lemma_config_problem_each, lemma_environment_problem_each,
};
use crate::config::{Environment, Replacement};
use crate::error::KoseiError;
use vstd::prelude::*;

verus! {

/// What applying the regex literal `regex` with replacement `value` to
/// `content` gives: the text with every match replaced, or the message of the
/// error in the literal.
pub open spec fn apply_outcome(content: Seq<char>, regex: Seq<char>, value: Seq<char>) -> Result<
    Seq<char>,
    Seq<char>,
> {
    match js_regex_parts(regex) {
        Err(m) => Err(m),
        Ok((p, f)) => match regex_build_outcome(p, f) {
            Err(m) => Err(m),
            Ok(modes) => Ok(
                regex_replace_all(
                    p,
                    modes.case_insensitive,
                    modes.multi_line,
                    modes.dot_matches_new_line,
                    content,
                    value,
                ),
            ),
        },
    }
}

/// Replaces every match of the replacement's regex in `content` with its
/// value; fails with `RegexParseError` where the regex literal does not parse
/// or compile.
pub fn apply(content: &str, replacement: &Replacement) -> (res: Result<String, KoseiError>)
    ensures
        match apply_outcome(content@, replacement.regex@, replacement.value@) {
            Ok(s) => res matches Ok(r) && r@ == s,
            Err(m) => res matches Err(KoseiError::RegexParseError(e)) && e@ == m,
        },
{
    let (pattern, flags) = match parse_js_regex(replacement.regex.as_str()) {
        Ok(parts) => parts,
        Err(e) => return Err(e),
    };
    let re = match build_regex(pattern.as_str(), flags.as_str()) {
        Ok(re) => re,
        Err(e) => return Err(e),
    };
    Ok(replace_all_matches(&re, content, replacement.value.as_str()))
}

/// Applying the literal `/pattern/flags` runs the pattern with exactly the
/// modes its own flags select, on the whole content, with the value as given:
/// it succeeds exactly when every flag is one of `g`, `u`, `y`, `i`, `m`, `s`
/// and the pattern compiles with those modes, and then gives every match of
/// the pattern replaced, case-insensitive exactly when the flags hold `i`,
/// multi-line exactly when they hold `m`, with `.` matching a line
/// terminator exactly when they hold `s`.
pub proof fn lemma_apply_uses_the_literal_flags(
    pattern: Seq<char>,
    flags: Seq<char>,
    content: Seq<char>,
    value: Seq<char>,
)
    requires
        !flags.contains('/'),
    ensures
        ({
            let literal = seq!['/'] + pattern + seq!['/'] + flags;
            let ci = flags.contains('i');
            let ml = flags.contains('m');
            let dm = flags.contains('s');
            &&& apply_outcome(content, literal, value) is Ok <==> (forall|i: int|
                0 <= i < flags.len() ==> known_flag(#[trigger] flags[i])) && regex_build_error(
                pattern,
                ci,
                ml,
                dm,
            ) is None
            &&& apply_outcome(content, literal, value) is Ok ==> apply_outcome(
                content,
                literal,
                value,
            ) == Ok::<Seq<char>, Seq<char>>(regex_replace_all(pattern, ci, ml, dm, content, value))
        }),
{
    lemma_js_regex_roundtrip(pattern, flags);
    lemma_build_uses_exactly_the_flags(pattern, flags);
}

/// A configuration that passes the loader's validation never fails to apply:
/// every replacement of every environment yields a text for every content.
pub proof fn lemma_validated_config_applies(
    envs: Seq<(String, Environment)>,
    j: int,
    i: int,
    content: Seq<char>,
)
    requires
        config_problem(envs) is None,
        0 <= j < envs.len(),
        0 <= i < envs[j].1.replacements@.len(),
    ensures
        apply_outcome(
            content,
            envs[j].1.replacements@[i].regex@,
            envs[j].1.replacements@[i].value@,
        ) is Ok,
{
    lemma_config_problem_each(envs, j);
    lemma_environment_problem_each(envs[j].0@, envs[j].1.replacements@, i);
}

} // verus!
