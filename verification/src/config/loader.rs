//! The data model of `kosei.yaml`.

use super::compiled_regex::regex_build_error;
use super::regex::{
    build_regex, js_regex_parts, known_flag, lemma_build_uses_exactly_the_flags,
    lemma_js_regex_roundtrip, parse_js_regex, regex_build_outcome,
};
use crate::error::{prefixed, regex_parse_error_text, KoseiError};
use crate::text::{decimal, decimal_string, sorted_texts, join, join_texts, text_order, texts};
use vstd::prelude::*;

verus! {

/// Paths of the standard library.
#[verifier::external_type_specification]
#[verifier::external_body]
pub struct ExPathBuf(std::path::PathBuf);

#[derive(Debug)]
pub struct Replacement {
    pub files: Vec<String>,
    pub regex: String,
    pub value: String,
}

#[derive(Debug)]
pub struct Environment {
    pub description: Option<String>,
    pub replacements: Vec<Replacement>,
}

#[derive(Debug)]
pub struct Config {
    pub environments: Vec<(String, Environment)>,
    pub base_dir: std::path::PathBuf,
}

pub struct ConfigLoader;

/// The message of a regex literal that does not parse or compile, if it has one.
pub open spec fn regex_problem(raw: Seq<char>) -> Option<Seq<char>> {
    match js_regex_parts(raw) {
        Err(m) => Some(m),
        Ok((p, f)) => match regex_build_outcome(p, f) {
            Err(m) => Some(m),
            Ok(_) => None,
        },
    }
}

/// What is wrong with replacement number `idx` of environment `env`, if
/// anything: an empty list of files, or a regex that does not compile.
pub open spec fn replacement_problem(env: Seq<char>, idx: int, r: Replacement) -> Option<Seq<char>> {
    if r.files@.len() == 0 {
        Some("empty files list in environment '"@ + env + "', replacement "@ + decimal(idx as nat))
    } else {
        match regex_problem(r.regex@) {
            Some(e) => Some(
                "invalid regex in environment '"@ + env + "', replacement "@ + decimal(idx as nat)
                    + ": "@ + regex_parse_error_text(e),
            ),
            None => None,
        }
    }
}

/// The problem of the first faulty replacement of environment `env`.
pub open spec fn environment_problem(env: Seq<char>, reps: Seq<Replacement>) -> Option<Seq<char>>
    decreases reps.len(),
{
    if reps.len() == 0 {
        None
    } else {
        match environment_problem(env, reps.drop_last()) {
            Some(m) => Some(m),
            None => replacement_problem(env, reps.len() - 1, reps.last()),
        }
    }
}

/// The problem of the first faulty replacement of the first environment that
/// has one, environments taken in the order given.
pub open spec fn config_problem(envs: Seq<(String, Environment)>) -> Option<Seq<char>>
    decreases envs.len(),
{
    if envs.len() == 0 {
        None
    } else {
        match config_problem(envs.drop_last()) {
            Some(m) => Some(m),
            None => environment_problem(envs.last().0@, envs.last().1.replacements@),
        }
    }
}

proof fn lemma_environment_problem_prefix(env: Seq<char>, reps: Seq<Replacement>, k: int)
    requires
        0 <= k <= reps.len(),
        environment_problem(env, reps.take(k)) is Some,
    ensures
        environment_problem(env, reps) == environment_problem(env, reps.take(k)),
    decreases reps.len() - k,
{
    if k < reps.len() {
        assert(reps.take(k + 1).drop_last() =~= reps.take(k));
        lemma_environment_problem_prefix(env, reps, k + 1);
    } else {
        assert(reps.take(k) =~= reps);
    }
}

proof fn lemma_config_problem_prefix(envs: Seq<(String, Environment)>, k: int)
    requires
        0 <= k <= envs.len(),
        config_problem(envs.take(k)) is Some,
    ensures
        config_problem(envs) == config_problem(envs.take(k)),
    decreases envs.len() - k,
{
    if k < envs.len() {
        assert(envs.take(k + 1).drop_last() =~= envs.take(k));
        lemma_config_problem_prefix(envs, k + 1);
    } else {
        assert(envs.take(k) =~= envs);
    }
}

/// Every replacement of an environment without a problem is itself without
/// a problem.
pub proof fn lemma_environment_problem_each(env: Seq<char>, reps: Seq<Replacement>, i: int)
    requires
        environment_problem(env, reps) is None,
        0 <= i < reps.len(),
    ensures
        replacement_problem(env, i, reps[i]) is None,
    decreases reps.len(),
{
    if i < reps.len() - 1 {
        assert(reps.drop_last()[i] == reps[i]);
        lemma_environment_problem_each(env, reps.drop_last(), i);
    }
}

/// Every environment of a configuration without a problem is itself without
/// a problem.
pub proof fn lemma_config_problem_each(envs: Seq<(String, Environment)>, j: int)
    requires
        config_problem(envs) is None,
        0 <= j < envs.len(),
    ensures
        environment_problem(envs[j].0@, envs[j].1.replacements@) is None,
    decreases envs.len(),
{
    if j < envs.len() - 1 {
        assert(envs.drop_last()[j] == envs[j]);
        lemma_config_problem_each(envs.drop_last(), j);
    }
}

/// Validation refuses a replacement only for what it must: a replacement is
/// faulty exactly when its list of files is empty (any number of files above
/// zero is fine) or its regex literal has a problem.
pub proof fn lemma_replacement_faulty_exactly(env: Seq<char>, idx: int, r: Replacement)
    ensures
        replacement_problem(env, idx, r) is None <==> r.files@.len() > 0 && regex_problem(
            r.regex@,
        ) is None,
{
}

/// A literal `/pattern/flags` has a problem exactly when a flag is not one of
/// `g`, `u`, `y`, `i`, `m`, `s` or the pattern does not compile with the
/// modes the flags select.
pub proof fn lemma_regex_problem_exactly(pattern: Seq<char>, flags: Seq<char>)
    requires
        !flags.contains('/'),
    ensures
        regex_problem(seq!['/'] + pattern + seq!['/'] + flags) is None <==> (forall|i: int|
            0 <= i < flags.len() ==> known_flag(#[trigger] flags[i])) && regex_build_error(
            pattern,
            flags.contains('i'),
            flags.contains('m'),
            flags.contains('s'),
        ) is None,
{
    lemma_js_regex_roundtrip(pattern, flags);
    lemma_build_uses_exactly_the_flags(pattern, flags);
}

proof fn lemma_environment_without_faulty_replacement(env: Seq<char>, reps: Seq<Replacement>)
    requires
        forall|i: int|
            0 <= i < reps.len() ==> (#[trigger] reps[i]).files@.len() > 0 && regex_problem(
                reps[i].regex@,
            ) is None,
    ensures
        environment_problem(env, reps) is None,
    decreases reps.len(),
{
    if reps.len() > 0 {
        let front = reps.drop_last();
        assert forall|i: int| 0 <= i < front.len() implies (#[trigger] front[i]).files@.len() > 0
            && regex_problem(front[i].regex@) is None by {
            assert(front[i] == reps[i]);
        }
        lemma_environment_without_faulty_replacement(env, front);
        assert(reps[reps.len() - 1] == reps.last());
    }
}

/// A configuration passes validation when each replacement of each
/// environment names at least one file and has a regex literal without a
/// problem; together with `lemma_config_problem_each` and
/// `lemma_environment_problem_each`, it passes exactly then.
pub proof fn lemma_config_without_faulty_replacement_passes(envs: Seq<(String, Environment)>)
    requires
        forall|j: int, i: int|
            0 <= j < envs.len() && 0 <= i < envs[j].1.replacements@.len() ==> (
            #[trigger] envs[j].1.replacements@[i]).files@.len() > 0 && regex_problem(
                envs[j].1.replacements@[i].regex@,
            ) is None,
    ensures
        config_problem(envs) is None,
    decreases envs.len(),
{
    if envs.len() > 0 {
        let front = envs.drop_last();
        assert forall|j: int, i: int|
            0 <= j < front.len() && 0 <= i < front[j].1.replacements@.len() implies (
            #[trigger] front[j].1.replacements@[i]).files@.len() > 0 && regex_problem(
                front[j].1.replacements@[i].regex@,
            ) is None by {
            assert(front[j] == envs[j]);
        }
        lemma_config_without_faulty_replacement_passes(front);
        let last = envs.len() - 1;
        assert(envs[last] == envs.last());
        let reps = envs.last().1.replacements@;
        assert forall|i: int| 0 <= i < reps.len() implies (#[trigger] reps[i]).files@.len() > 0
            && regex_problem(reps[i].regex@) is None by {
            assert(envs[last].1.replacements@[i] == reps[i]);
        }
        lemma_environment_without_faulty_replacement(envs.last().0@, reps);
    }
}

/// The position of the first `true` in `present`.
pub open spec fn first_present(present: Seq<bool>) -> Option<int>
    decreases present.len(),
{
    if present.len() == 0 {
        None
    } else {
        match first_present(present.drop_last()) {
            Some(i) => Some(i),
            None => if present.last() {
                Some(present.len() - 1)
            } else {
                None
            },
        }
    }
}

/// Finds the nearest directory, walking up from the start, whose candidate
/// file exists. `present[i]` tells whether `file_name` exists in the `i`-th
/// directory on the way up: the start itself, its parent, and so on up to the
/// root. Fails with `ConfigNotFound` when it exists in none.
pub fn locate_upwards(present: &Vec<bool>, file_name: &str) -> (res: Result<usize, KoseiError>)
    ensures
        match first_present(present@) {
            Some(i) => res == Ok::<usize, KoseiError>(i as usize),
            None => res matches Err(KoseiError::ConfigNotFound(m)) && m@ == "Could not find "@
                + file_name@ + " in any parent directory"@,
        },
{
    let mut i: usize = 0;
    while i < present.len()
        invariant
            i <= present@.len(),
            first_present(present@.take(i as int)) is None,
        decreases present@.len() - i,
    {
        assert(present@.take(i + 1).drop_last() =~= present@.take(i as int));
        if present[i] {
            proof {
                lemma_first_present_prefix(present@, i + 1);
            }
            return Ok(i);
        }
        i = i + 1;
    }
    assert(present@.take(i as int) =~= present@);
    let mut msg = prefixed("Could not find ", file_name);
    msg.append(" in any parent directory");
    Err(KoseiError::ConfigNotFound(msg))
}

proof fn lemma_first_present_prefix(present: Seq<bool>, k: int)
    requires
        0 <= k <= present.len(),
        first_present(present.take(k)) is Some,
    ensures
        first_present(present) == first_present(present.take(k)),
    decreases present.len() - k,
{
    if k < present.len() {
        assert(present.take(k + 1).drop_last() =~= present.take(k));
        lemma_first_present_prefix(present, k + 1);
    } else {
        assert(present.take(k) =~= present);
    }
}

impl ConfigLoader {
    /// Validate a regex by parsing the format and attempting to compile it
    pub fn validate_regex(raw: &str) -> (res: Result<(), KoseiError>)
        ensures
            match regex_problem(raw@) {
                None => res is Ok,
                Some(m) => res matches Err(KoseiError::RegexParseError(e)) && e@ == m,
            },
    {
        let (pattern, flags) = match parse_js_regex(raw) {
            Ok(parts) => parts,
            Err(e) => return Err(e),
        };
        match build_regex(pattern.as_str(), flags.as_str()) {
            Ok(_) => Ok(()),
            Err(e) => Err(e),
        }
    }

    /// Finds `kosei.yaml` in the nearest of the directories from the current
    /// one up to the root; `present[i]` tells whether it exists in the `i`-th.
    pub fn find_config(present: &Vec<bool>) -> (res: Result<usize, KoseiError>)
        ensures
            match first_present(present@) {
                Some(i) => res == Ok::<usize, KoseiError>(i as usize),
                None => res matches Err(KoseiError::ConfigNotFound(m)) && m@
                    == "Could not find kosei.yaml in any parent directory"@,
            },
    {
        let res = locate_upwards(present, "kosei.yaml");
        proof {
            reveal_strlit("kosei.yaml");
            reveal_strlit("Could not find ");
            reveal_strlit(" in any parent directory");
            reveal_strlit("Could not find kosei.yaml in any parent directory");
        }
        res
    }

    /// Checks the environments of a freshly read configuration: every
    /// replacement must name at least one file and carry a regex literal that
    /// parses and compiles. Fails with `ConfigParseError` on the first faulty
    /// replacement, environments and replacements taken in order.
    pub fn validate_environments(environments: &Vec<(String, Environment)>) -> (res: Result<
        (),
        KoseiError,
    >)
        ensures
            match config_problem(environments@) {
                None => res is Ok,
                Some(m) => res matches Err(KoseiError::ConfigParseError(e)) && e@ == m,
            },
    {
        let mut j: usize = 0;
        while j < environments.len()
            invariant
                j <= environments@.len(),
                config_problem(environments@.take(j as int)) is None,
            decreases environments@.len() - j,
        {
            let name = &environments[j].0;
            let reps = &environments[j].1.replacements;
            assert(environments@.take(j + 1).drop_last() =~= environments@.take(j as int));
            let mut i: usize = 0;
            while i < reps.len()
                invariant
                    i <= reps@.len(),
                    j < environments@.len(),
                    *name == environments@[j as int].0,
                    *reps == environments@[j as int].1.replacements,
                    config_problem(environments@.take(j as int)) is None,
                    environment_problem(name@, reps@.take(i as int)) is None,
                decreases reps@.len() - i,
            {
                assert(reps@.take(i + 1).drop_last() =~= reps@.take(i as int));
                let r = &reps[i];
                let problem = if r.files.len() == 0 {
                    let mut msg = prefixed("empty files list in environment '", name.as_str());
                    msg.append("', replacement ");
                    msg.append(decimal_string(i).as_str());
                    Some(msg)
                } else {
                    match Self::validate_regex(r.regex.as_str()) {
                        Ok(()) => None,
                        Err(e) => {
                            let mut msg = prefixed(
                                "invalid regex in environment '",
                                name.as_str(),
                            );
                            msg.append("', replacement ");
                            msg.append(decimal_string(i).as_str());
                            msg.append(": ");
                            msg.append(e.to_string().as_str());
                            Some(msg)
                        },
                    }
                };
                match problem {
                    Some(msg) => {
                        proof {
                            assert(reps@.take(i + 1).last() == reps@[i as int]);
                            assert(replacement_problem(name@, i as int, reps@[i as int]) == Some(
                                msg@,
                            ));
                            assert(environment_problem(name@, reps@.take(i + 1)) == Some(msg@));
                            lemma_environment_problem_prefix(name@, reps@, i + 1);
                            assert(reps@.take(reps@.len() as int) =~= reps@);
                            assert(environments@.take(j + 1).drop_last() =~= environments@.take(
                                j as int,
                            ));
                            assert(environments@.take(j + 1).last() == environments@[j as int]);
                            assert(config_problem(environments@.take(j + 1)) == Some(msg@));
                            lemma_config_problem_prefix(environments@, j + 1);
                        }
                        return Err(KoseiError::ConfigParseError(msg));
                    },
                    None => {},
                }
                i = i + 1;
            }
            assert(reps@.take(reps@.len() as int) =~= reps@);
            j = j + 1;
        }
        assert(environments@.take(environments@.len() as int) =~= environments@);
        Ok(())
    }
}

/// In a configuration whose names are distinct, the environment found under
/// A name that some environment at or before `k` has is had by a first one.
proof fn lemma_first_named(config: Config, name: Seq<char>, k: int)
    requires
        0 <= k < config.environments@.len(),
        config.environments@[k].0@ == name,
    ensures
        exists|i: int|
            0 <= i < config.environments@.len() && #[trigger] config.environments@[i].0@ == name
                && forall|j: int| 0 <= j < i ==> config.environments@[j].0@ != name,
    decreases k,
{
    if exists|j: int| 0 <= j < k && #[trigger] config.environments@[j].0@ == name {
        let j = choose|j: int| 0 <= j < k && #[trigger] config.environments@[j].0@ == name;
        lemma_first_named(config, name, j);
    } else {
        assert(forall|j: int| 0 <= j < k ==> config.environments@[j].0@ != name);
    }
}

/// The position that `position_of` gives is that of the first environment
/// with the name asked for; there is none exactly when no environment has it.
pub proof fn lemma_position_of_first(config: Config, name: Seq<char>)
    ensures
        match config.position_of(name) {
            Some(i) => {
                &&& 0 <= i < config.environments@.len()
                &&& config.environments@[i].0@ == name
                &&& forall|j: int| 0 <= j < i ==> config.environments@[j].0@ != name
            },
            None => forall|j: int|
                0 <= j < config.environments@.len() ==> config.environments@[j].0@ != name,
        },
{
    if exists|i: int|
        0 <= i < config.environments@.len() && config.environments@[i].0@ == name {
        let k = choose|i: int|
            0 <= i < config.environments@.len() && config.environments@[i].0@ == name;
        lemma_first_named(config, name, k);
    }
}

/// a name is the one that carries it.
pub proof fn lemma_position_of_named(config: Config, i: int)
    requires
        config.names_distinct(),
        0 <= i < config.environments@.len(),
    ensures
        config.position_of(config.environments@[i].0@) == Some(i),
{
    let name = config.environments@[i].0@;
    assert(forall|j: int| 0 <= j < i ==> config.environments@[j].0@ != name);
    let p = config.position_of(name)->0;
    if p != i {
        assert(config.environments@[p].0@ == name);
        if p > i {
            assert(config.environments@[i].0@ != config.environments@[p].0@);
        }
    }
}

impl Config {
    /// The position of the first environment named `name`.
    pub open spec fn position_of(self, name: Seq<char>) -> Option<int> {
        if exists|i: int| 0 <= i < self.environments@.len() && self.environments@[i].0@ == name {
            Some(
                choose|i: int|
                    0 <= i < self.environments@.len() && self.environments@[i].0@ == name && forall|
                        j: int,
                    |
                        0 <= j < i ==> self.environments@[j].0@ != name,
            )
        } else {
            None
        }
    }

    /// No two environments share a name, as no two keys of a map do; the
    /// environments read from `kosei.yaml` are the entries of such a map.
    pub open spec fn names_distinct(self) -> bool {
        forall|i: int, j: int|
            0 <= i < j < self.environments@.len() ==> #[trigger] self.environments@[i].0@
                != #[trigger] self.environments@[j].0@
    }

    /// The names of the environments, in their order.
    pub open spec fn names(self) -> Seq<Seq<char>> {
        self.environments@.map_values(|e: (String, Environment)| e.0@)
    }

    /// The message for a request of the environment `name`, which the
    /// configuration does not define: the names it does define, sorted.
    pub open spec fn not_found_message(self, name: Seq<char>) -> Seq<char> {
        "environment `"@ + name + "` not found in kosei.yaml\navailable: "@ + join(
            self.names().sort_by(text_order()),
            ", "@,
        )
    }

    /// The environment named `name`, or `EnvironmentNotFound` with a message
    /// that lists the names that the configuration does define, sorted.
    pub fn environment(&self, name: &str) -> (res: Result<&Environment, KoseiError>)
        ensures
            match self.position_of(name@) {
                Some(i) => res matches Ok(env) && *env == self.environments@[i].1,
                None => res matches Err(KoseiError::EnvironmentNotFound(m)) && m@
                    == self.not_found_message(name@),
            },
            self.names_distinct() ==> forall|i: int|
                0 <= i < self.environments@.len() && #[trigger] self.environments@[i].0@
                    == name@ ==> (res matches Ok(env) && *env == self.environments@[i].1),
    {
        proof {
            if self.names_distinct() {
                assert forall|i: int|
                    0 <= i < self.environments@.len() && #[trigger] self.environments@[i].0@
                        == name@ implies self.position_of(name@) == Some(i) by {
                    lemma_position_of_named(*self, i);
                }
            }
        }
        let mut names: Vec<String> = Vec::new();
        for i in 0..self.environments.len()
            invariant
                texts(names@) == self.names().take(i as int),
                forall|j: int| 0 <= j < i ==> self.environments@[j].0@ != name@,
        {
            let entry = &self.environments[i];
            if crate::text::str_equal(entry.0.as_str(), name) {
                proof {
                    assert(self.position_of(name@) == Some(i as int)) by {
                        let p = self.position_of(name@)->0;
                        assert(self.environments@[i as int].0@ == name@);
                        if p < i {
                        } else if p > i {
                        }
                    }
                }
                return Ok(&entry.1);
            }
            let ghost before = names@;
            let copy = entry.0.clone();
            assert(copy@ == self.environments@[i as int].0@);
            names.push(copy);
            assert(texts(names@) =~= texts(before).push(self.environments@[i as int].0@));
            assert(self.names().take(i + 1) =~= self.names().take(i as int).push(
                self.environments@[i as int].0@,
            ));
        }
        assert(self.names().take(self.environments@.len() as int) =~= self.names());
        let sorted = sorted_texts(&names);
        let mut msg = prefixed("environment `", name);
        msg.append("` not found in kosei.yaml\navailable: ");
        msg.append(join_texts(&sorted, ", ").as_str());
        Err(KoseiError::EnvironmentNotFound(msg))
    }
}

} // verus!
