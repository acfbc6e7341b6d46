use kosei_cli::error::IoErrorKind;
use kosei_cli::text::{decimal_string, join_texts, sorted_texts, str_lex_le, trimmed_end};
use kosei_cli::KoseiError;

#[test]
fn error_texts_per_variant() {
    let m = || "m".to_string();
    assert_eq!(KoseiError::ConfigNotFound(m()).to_string(), "Config not found: m");
    assert_eq!(KoseiError::ConfigReadError(m()).to_string(), "Failed to read config: m");
    assert_eq!(KoseiError::ConfigParseError(m()).to_string(), "Failed to parse config: m");
    assert_eq!(
        KoseiError::EnvironmentNotFound(m()).to_string(),
        "Environment name not found: m"
    );
    assert_eq!(
        KoseiError::FileReadError(m(), IoErrorKind::NotFound).to_string(),
        "Failed to read file: m (file does not exist)"
    );
    assert_eq!(
        KoseiError::FileReadError(m(), IoErrorKind::PermissionDenied).to_string(),
        "Failed to read file: m (permission denied reading)"
    );
    assert_eq!(
        KoseiError::FileReadError(m(), IoErrorKind::AlreadyExists).to_string(),
        "Failed to read file: m (cannot read file)"
    );
    assert_eq!(
        KoseiError::FileWriteError(m(), IoErrorKind::PermissionDenied).to_string(),
        "Failed to write file: m (permission denied writing)"
    );
    assert_eq!(
        KoseiError::FileWriteError(m(), IoErrorKind::NotFound).to_string(),
        "Failed to write file: m (target directory does not exist)"
    );
    assert_eq!(
        KoseiError::FileWriteError(m(), IoErrorKind::Other).to_string(),
        "Failed to write file: m (cannot write file)"
    );
    assert_eq!(KoseiError::RegexParseError(m()).to_string(), "Failed to parse regex: m");
    assert_eq!(KoseiError::RegexApplyError(m()).to_string(), "Failed to apply regex: m");
}

#[test]
fn decimal_rendering() {
    assert_eq!(decimal_string(0), "0");
    assert_eq!(decimal_string(7), "7");
    assert_eq!(decimal_string(10), "10");
    assert_eq!(decimal_string(1203), "1203");
    assert_eq!(decimal_string(usize::MAX), usize::MAX.to_string());
}

#[test]
fn byte_order_of_texts() {
    assert!(str_lex_le("", "a"));
    assert!(str_lex_le("ab", "ab"));
    assert!(str_lex_le("ab", "abc"));
    assert!(!str_lex_le("abc", "ab"));
    assert!(str_lex_le("Zeta", "alpha"));
    assert!(str_lex_le("z", "é"));
    assert!(!str_lex_le("é", "z"));
}

#[test]
fn sorting_and_joining_names() {
    let names: Vec<String> = ["prod", "dev", "Staging", "dev", "é", "a"]
        .iter()
        .map(|s| s.to_string())
        .collect();
    let sorted = sorted_texts(&names);
    let mut expected = names.clone();
    expected.sort();
    assert_eq!(sorted, expected);
    assert_eq!(join_texts(&sorted, ", "), "Staging, a, dev, dev, prod, é");
    assert_eq!(join_texts(&vec![], ", "), "");
    assert_eq!(join_texts(&vec!["one".to_string()], ", "), "one");
}

#[test]
fn trimming_trailing_white_space() {
    assert_eq!(trimmed_end("abc \t\r\n"), "abc");
    assert_eq!(trimmed_end("  abc"), "  abc");
    assert_eq!(trimmed_end("x\u{3000}\u{a0}\u{2009}"), "x");
    assert_eq!(trimmed_end(" \n "), "");
    for s in ["a b ", "\u{85}z\u{85}", "q\u{200b}"] {
        assert_eq!(trimmed_end(s), s.trim_end());
    }
}

#[test]
fn error_kind_is_carried_even_where_the_message_does_not_name_it() {
    let e = KoseiError::FileReadError("cannot read `./d`".to_string(), IoErrorKind::IsADirectory);
    assert_eq!(e.to_string(), "Failed to read file: cannot read `./d` (cannot read file)");
    match e {
        KoseiError::FileReadError(_, kind) => assert_eq!(kind, IoErrorKind::IsADirectory),
        _ => panic!("expected a read error"),
    }
    let e = KoseiError::FileWriteError("x".to_string(), IoErrorKind::StorageFull);
    assert_eq!(e.to_string(), "Failed to write file: x (cannot write file)");
}
