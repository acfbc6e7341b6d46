//! Scaffolding a new `kosei.yaml`.

use crate::error::{prefixed, IoErrorKind, KoseiError};
use vstd::prelude::*;

verus! {

/// The configuration that `init` writes: one example environment.
pub open spec fn default_config_text() -> Seq<char> {
    "environments:\n  example:\n    description: \"An example environment\"\n    replacements:\n      - files: [\"**/*.txt\"]\n        regex: \"/foo/\"\n        value: \"bar\"\n        "@
}

/// Decides what `init` writes: the default configuration where no
/// `kosei.yaml` exists yet at `config_path`, else a `FileWriteError` of kind
/// `AlreadyExists` that names the path.
pub fn prepare(config_exists: bool, config_path: &str) -> (res: Result<String, KoseiError>)
    ensures
        if config_exists {
            res matches Err(KoseiError::FileWriteError(m, k)) && k == IoErrorKind::AlreadyExists
                && m@ == "kosei.yaml already exists at "@ + config_path@
        } else {
            res matches Ok(text) && text@ == default_config_text()
        },
{
    if config_exists {
        return Err(
            KoseiError::FileWriteError(
                prefixed("kosei.yaml already exists at ", config_path),
                IoErrorKind::AlreadyExists,
            ),
        );
    }
    Ok(
        String::from_str(
            "environments:\n  example:\n    description: \"An example environment\"\n    replacements:\n      - files: [\"**/*.txt\"]\n        regex: \"/foo/\"\n        value: \"bar\"\n        ",
        ),
    )
}

/// The error of a failed write of `kosei.yaml`: `detail` is the text of the
/// operating-system error and `kind` its kind.
pub fn write_failure(detail: &str, kind: IoErrorKind) -> (e: KoseiError)
    ensures
        e matches KoseiError::FileWriteError(m, k) && k == kind && m@
            == "cannot write kosei.yaml: "@ + detail@,
{
    KoseiError::FileWriteError(prefixed("cannot write kosei.yaml: ", detail), kind)
}

} // verus!
