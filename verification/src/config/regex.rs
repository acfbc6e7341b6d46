//! Regex literals of the form `/pattern/flags`, and their compilation.

pub use super::compiled_regex::CompiledRegex;
use super::compiled_regex::{compile, regex_build_error};
use crate::error::{prefixed, KoseiError};
use crate::text::chars_of;
use vstd::prelude::*;

verus! {

/// The position of the last `/` in `s`, if there is one.
pub open spec fn last_slash(s: Seq<char>) -> Option<int>
    decreases s.len(),
{
    if s.len() == 0 {
        None
    } else if s.last() == '/' {
        Some(s.len() - 1)
    } else {
        last_slash(s.drop_last())
    }
}

proof fn lemma_last_slash_at(s: Seq<char>, k: int)
    requires
        0 <= k < s.len(),
        s[k] == '/',
        forall|j: int| k < j < s.len() ==> s[j] != '/',
    ensures
        last_slash(s) == Some(k),
    decreases s.len(),
{
    if k < s.len() - 1 {
        lemma_last_slash_at(s.drop_last(), k);
    }
}

proof fn lemma_last_slash_none(s: Seq<char>)
    requires
        forall|j: int| 0 <= j < s.len() ==> s[j] != '/',
    ensures
        last_slash(s) is None,
    decreases s.len(),
{
    if s.len() > 0 {
        lemma_last_slash_none(s.drop_last());
    }
}

/// How `raw` splits into pattern and flags: the text between the leading `/`
/// and the last `/`, and the text after that last `/`; or, where `raw` has no
/// such form, the message that explains why.
pub open spec fn js_regex_parts(raw: Seq<char>) -> Result<(Seq<char>, Seq<char>), Seq<char>> {
    if raw.len() == 0 || raw[0] != '/' {
        Err("regex must use /pattern/flags format, got: `"@ + raw + "`"@)
    } else {
        match last_slash(raw.drop_first()) {
            None => Err("regex is missing a closing `/`: `"@ + raw + "`"@),
            Some(k) => Ok((raw.drop_first().take(k), raw.drop_first().skip(k + 1))),
        }
    }
}

/// Writing a pattern and flags as a literal `/pattern/flags` and parsing it
/// gives them back, provided the flags hold no `/` (the pattern may).
pub proof fn lemma_js_regex_roundtrip(pattern: Seq<char>, flags: Seq<char>)
    requires
        !flags.contains('/'),
    ensures
        js_regex_parts(seq!['/'] + pattern + seq!['/'] + flags) == Ok::<
            (Seq<char>, Seq<char>),
            Seq<char>,
        >((pattern, flags)),
{
    let raw = seq!['/'] + pattern + seq!['/'] + flags;
    let inner = raw.drop_first();
    assert(inner =~= pattern + seq!['/'] + flags);
    let k = pattern.len() as int;
    assert(inner[k] == '/');
    assert forall|j: int| k < j < inner.len() implies inner[j] != '/' by {
        assert(inner[j] == flags[j - k - 1]);
    }
    lemma_last_slash_at(inner, k);
    assert(inner.take(k) =~= pattern);
    assert(inner.skip(k + 1) =~= flags);
}

/// Parse a JavaScript-style regex string into pattern and flags.
/// Format: `/pattern/flags`
pub fn parse_js_regex(raw: &str) -> (res: Result<(String, String), KoseiError>)
    ensures
        match js_regex_parts(raw@) {
            Ok((p, f)) => res matches Ok((rp, rf)) && rp@ == p && rf@ == f,
            Err(m) => res matches Err(KoseiError::RegexParseError(e)) && e@ == m,
        },
{
    let v = chars_of(raw);
    let n = v.len();
    if n == 0 || v[0] != '/' {
        let mut msg = prefixed("regex must use /pattern/flags format, got: `", raw);
        msg.append("`");
        return Err(KoseiError::RegexParseError(msg));
    }
    let mut k = n;
    while k > 1 && v[k - 1] != '/'
        invariant
            1 <= k <= n,
            n == v@.len(),
            v@ == raw@,
            forall|j: int| k <= j < n ==> v@[j] != '/',
        decreases k,
    {
        k = k - 1;
    }
    let ghost inner = raw@.drop_first();
    if k == 1 {
        proof {
            assert forall|j: int| 0 <= j < inner.len() implies inner[j] != '/' by {
                assert(inner[j] == raw@[j + 1]);
            }
            lemma_last_slash_none(inner);
        }
        let mut msg = prefixed("regex is missing a closing `/`: `", raw);
        msg.append("`");
        return Err(KoseiError::RegexParseError(msg));
    }
    proof {
        assert forall|j: int| k - 2 < j < inner.len() implies inner[j] != '/' by {
            assert(inner[j] == raw@[j + 1]);
        }
        lemma_last_slash_at(inner, k - 2);
        assert(raw@.subrange(1, k - 1) =~= inner.take(k - 2));
        assert(raw@.subrange(k as int, n as int) =~= inner.skip(k - 1));
    }
    let pattern = String::from_str(raw.substring_char(1, k - 1));
    let flags = String::from_str(raw.substring_char(k, n));
    Ok((pattern, flags))
}

/// The matching modes that the flags of a regex literal select.
#[derive(Clone, Copy, Debug, PartialEq, Eq, Structural)]
pub struct RegexFlags {
    /// `i`: letters match regardless of case.
    pub case_insensitive: bool,
    /// `m`: `^` and `$` also match at line boundaries.
    pub multi_line: bool,
    /// `s`: `.` also matches a line terminator.
    pub dot_matches_new_line: bool,
}

/// A flag that a regex literal may carry: `i`, `m` and `s` select modes,
/// while `g`, `u` and `y` are accepted and have no effect.
pub open spec fn known_flag(c: char) -> bool {
    c == 'g' || c == 'u' || c == 'y' || c == 'i' || c == 'm' || c == 's'
}

/// The modes that `flags` select, or the first character of `flags` that is
/// not a known flag.
pub open spec fn flag_modes(flags: Seq<char>) -> Result<RegexFlags, char>
    decreases flags.len(),
{
    if flags.len() == 0 {
        Ok(RegexFlags { case_insensitive: false, multi_line: false, dot_matches_new_line: false })
    } else {
        match flag_modes(flags.drop_last()) {
            Err(c) => Err(c),
            Ok(m) => {
                let c = flags.last();
                if !known_flag(c) {
                    Err(c)
                } else {
                    Ok(
                        RegexFlags {
                            case_insensitive: m.case_insensitive || c == 'i',
                            multi_line: m.multi_line || c == 'm',
                            dot_matches_new_line: m.dot_matches_new_line || c == 's',
                        },
                    )
                }
            },
        }
    }
}

/// The modes that `flags` select are those of the known flags it contains.
pub proof fn lemma_flag_modes_contains(flags: Seq<char>)
    requires
        forall|i: int| 0 <= i < flags.len() ==> known_flag(#[trigger] flags[i]),
    ensures
        flag_modes(flags) == Ok::<RegexFlags, char>(
            RegexFlags {
                case_insensitive: flags.contains('i'),
                multi_line: flags.contains('m'),
                dot_matches_new_line: flags.contains('s'),
            },
        ),
    decreases flags.len(),
{
    if flags.len() > 0 {
        let front = flags.drop_last();
        assert forall|i: int| 0 <= i < front.len() implies known_flag(#[trigger] front[i]) by {
            assert(front[i] == flags[i]);
        }
        lemma_flag_modes_contains(front);
        assert(flags =~= front.push(flags.last()));
        assert forall|c: char| flags.contains(c) <==> front.contains(c) || c == flags.last() by {
            if flags.contains(c) {
                let i = choose|i: int| 0 <= i < flags.len() && flags[i] == c;
                if i < flags.len() - 1 {
                    assert(front[i] == c);
                }
            }
            if front.contains(c) {
                let i = choose|i: int| 0 <= i < front.len() && front[i] == c;
                assert(flags[i] == c);
            }
            if c == flags.last() {
                assert(flags[flags.len() - 1] == c);
            }
        }
    }
}

/// Reads the modes that a flags string selects, as `flag_modes` says.
fn read_flags(flags: &str) -> (res: Result<RegexFlags, KoseiError>)
    ensures
        match flag_modes(flags@) {
            Ok(m) => res == Ok::<RegexFlags, KoseiError>(m),
            Err(c) => res matches Err(KoseiError::RegexParseError(e)) && e@
                == "unsupported regex flag: `"@ + seq![c] + "`"@,
        },
{
    let v = chars_of(flags);
    let mut modes = RegexFlags {
        case_insensitive: false,
        multi_line: false,
        dot_matches_new_line: false,
    };
    for i in 0..v.len()
        invariant
            v@ == flags@,
            flag_modes(flags@.take(i as int)) == Ok::<RegexFlags, char>(modes),
    {
        assert(flags@.take(i + 1).drop_last() =~= flags@.take(i as int));
        let c = v[i];
        if c == 'i' {
            modes.case_insensitive = true;
        } else if c == 'm' {
            modes.multi_line = true;
        } else if c == 's' {
            modes.dot_matches_new_line = true;
        } else if c != 'g' && c != 'u' && c != 'y' {
            proof {
                lemma_flag_modes_prefix_error(flags@, i + 1);
            }
            let mut msg = String::from_str("unsupported regex flag: `");
            msg.append(flags.substring_char(i, i + 1));
            msg.append("`");
            return Err(KoseiError::RegexParseError(msg));
        }
    }
    assert(flags@.take(v@.len() as int) =~= flags@);
    Ok(modes)
}

/// Once a prefix of the flags holds an unknown flag, so do the flags.
proof fn lemma_flag_modes_prefix_error(flags: Seq<char>, k: int)
    requires
        0 <= k <= flags.len(),
        flag_modes(flags.take(k)) is Err,
    ensures
        flag_modes(flags) == flag_modes(flags.take(k)),
    decreases flags.len() - k,
{
    if k < flags.len() {
        assert(flags.take(k + 1).drop_last() =~= flags.take(k));
        lemma_flag_modes_prefix_error(flags, k + 1);
    } else {
        assert(flags.take(k) =~= flags);
    }
}

/// What building a regex from `pattern` and `flags` gives: the modes it is
/// compiled with, or the message of the error.
pub open spec fn regex_build_outcome(pattern: Seq<char>, flags: Seq<char>) -> Result<
    RegexFlags,
    Seq<char>,
> {
    match flag_modes(flags) {
        Err(c) => Err("unsupported regex flag: `"@ + seq![c] + "`"@),
        Ok(m) => match regex_build_error(
            pattern,
            m.case_insensitive,
            m.multi_line,
            m.dot_matches_new_line,
        ) {
            Some(e) => Err("failed to compile regex pattern `"@ + pattern + "`: "@ + e),
            None => Ok(m),
        },
    }
}

/// Flags that hold an unknown letter are refused: flags that `flag_modes`
/// reads are all of `g`, `u`, `y`, `i`, `m` and `s`.
proof fn lemma_flag_modes_ok_known(flags: Seq<char>)
    requires
        flag_modes(flags) is Ok,
    ensures
        forall|i: int| 0 <= i < flags.len() ==> known_flag(#[trigger] flags[i]),
    decreases flags.len(),
{
    if flags.len() > 0 {
        let front = flags.drop_last();
        lemma_flag_modes_ok_known(front);
        assert forall|i: int| 0 <= i < flags.len() implies known_flag(#[trigger] flags[i]) by {
            if i < flags.len() - 1 {
                assert(flags[i] == front[i]);
            }
        }
    }
}

/// Building a regex uses exactly the modes its flags select: it succeeds
/// exactly when every flag is one of `g`, `u`, `y`, `i`, `m`, `s` and the
/// pattern compiles with those modes, and then the regex is case-insensitive
/// exactly when the flags hold `i`, multi-line exactly when they hold `m`,
/// and its `.` matches a line terminator exactly when they hold `s`; no flag
/// turns on a mode of another.
pub proof fn lemma_build_uses_exactly_the_flags(pattern: Seq<char>, flags: Seq<char>)
    ensures
        regex_build_outcome(pattern, flags) is Ok <==> (forall|i: int|
            0 <= i < flags.len() ==> known_flag(#[trigger] flags[i])) && regex_build_error(
            pattern,
            flags.contains('i'),
            flags.contains('m'),
            flags.contains('s'),
        ) is None,
        regex_build_outcome(pattern, flags) is Ok ==> regex_build_outcome(pattern, flags)->Ok_0
            == (RegexFlags {
            case_insensitive: flags.contains('i'),
            multi_line: flags.contains('m'),
            dot_matches_new_line: flags.contains('s'),
        }),
{
    if flag_modes(flags) is Ok {
        lemma_flag_modes_ok_known(flags);
    }
    if forall|i: int| 0 <= i < flags.len() ==> known_flag(#[trigger] flags[i]) {
        lemma_flag_modes_contains(flags);
    }
}

/// Build a compiled Regex from a pattern and flags string.
///
/// Supported flags: `i` (case-insensitive), `m` (multi-line: `^` and `$`
/// match at line boundaries), `s` (dot matches newline). The flags `g`, `u`
/// and `y` are accepted and ignored; any other flag is an error.
pub fn build_regex(pattern: &str, flags: &str) -> (res: Result<CompiledRegex, KoseiError>)
    ensures
        match regex_build_outcome(pattern@, flags@) {
            Ok(m) => res matches Ok(re) && re.pattern() == pattern@ && re.modes() == m,
            Err(msg) => res matches Err(KoseiError::RegexParseError(e)) && e@ == msg,
        },
        res is Ok <==> (forall|i: int| 0 <= i < flags@.len() ==> known_flag(#[trigger] flags@[i]))
            && regex_build_error(
            pattern@,
            flags@.contains('i'),
            flags@.contains('m'),
            flags@.contains('s'),
        ) is None,
        res matches Ok(re) ==> re.modes() == (RegexFlags {
            case_insensitive: flags@.contains('i'),
            multi_line: flags@.contains('m'),
            dot_matches_new_line: flags@.contains('s'),
        }),
{
    proof {
        lemma_build_uses_exactly_the_flags(pattern@, flags@);
    }
    let modes = match read_flags(flags) {
        Ok(m) => m,
        Err(e) => return Err(e),
    };
    match compile(pattern, modes) {
        Ok(re) => Ok(re),
        Err(detail) => {
            let mut msg = prefixed("failed to compile regex pattern `", pattern);
            msg.append("`: ");
            msg.append(detail.as_str());
            Err(KoseiError::RegexParseError(msg))
        },
    }
}

} // verus!
