use kosei_cli::commands::init::{prepare, write_failure};
use kosei_cli::error::IoErrorKind;
use kosei_cli::KoseiError;

#[test]
fn init_creates_valid_config() {
    let content = prepare(false, "/tmp/project/kosei.yaml").unwrap();
    assert!(
        content.contains("environments:"),
        "Should have environments section"
    );
    assert!(
        content.contains("example:"),
        "Should have example environment"
    );
    assert!(
        content.contains("regex: \"/foo/\""),
        "Should have valid regex format with leading slash"
    );
    assert!(
        content.contains("replacements:"),
        "Should have replacements section"
    );
    assert!(content.contains("files:"), "Should have files pattern");
    assert!(
        content.contains("value: \"bar\""),
        "Should have replacement value"
    );
}

#[test]
fn init_prevents_overwrite() {
    let result = prepare(true, "/tmp/project/kosei.yaml");
    assert!(result.is_err(), "Should fail when config already exists");
    match result.unwrap_err() {
        KoseiError::FileWriteError(m, kind) => {
            assert_eq!(m, "kosei.yaml already exists at /tmp/project/kosei.yaml");
            assert_eq!(kind, IoErrorKind::AlreadyExists);
        }
        other => panic!("unexpected {:?}", other),
    }
}

#[test]
fn init_write_failure_text() {
    let e = write_failure("Permission denied (os error 13)", IoErrorKind::PermissionDenied);
    assert_eq!(
        e.to_string(),
        "Failed to write file: cannot write kosei.yaml: Permission denied (os error 13) (permission denied writing)"
    );
}
