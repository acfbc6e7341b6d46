use kosei_cli::config::{ConfigLoader, Environment, Replacement};
use kosei_cli::replacer::apply;
use kosei_cli::KoseiError;

#[test]
fn test_apply_simple_replacement() {
    let replacement = Replacement {
        files: vec![],
        regex: "/foo/".to_string(),
        value: "bar".to_string(),
    };
    let result = apply("foo is foo", &replacement);
    assert!(result.is_ok());
    assert_eq!(result.unwrap(), "bar is bar");
}

#[test]
fn test_apply_case_insensitive() {
    let replacement = Replacement {
        files: vec![],
        regex: "/hello/i".to_string(),
        value: "hi".to_string(),
    };
    let result = apply("HELLO world Hello", &replacement);
    assert!(result.is_ok());
    assert_eq!(result.unwrap(), "hi world hi");
}

#[test]
fn test_apply_with_multiline() {
    let replacement = Replacement {
        files: vec![],
        regex: "/^test/m".to_string(),
        value: "pass".to_string(),
    };
    let result = apply("test line\ntest another", &replacement);
    assert!(result.is_ok());
    assert_eq!(result.unwrap(), "pass line\npass another");
}

#[test]
fn test_apply_ignored_g_flag() {
    let replacement = Replacement {
        files: vec![],
        regex: "/foo/g".to_string(),
        value: "bar".to_string(),
    };
    let result = apply("foo bar foo", &replacement);
    assert!(result.is_ok());
    assert_eq!(result.unwrap(), "bar bar bar");
}

#[test]
fn test_apply_ignored_u_flag() {
    let replacement = Replacement {
        files: vec![],
        regex: "/foo/u".to_string(),
        value: "bar".to_string(),
    };
    let result = apply("foo bar foo", &replacement);
    assert!(result.is_ok());
    assert_eq!(result.unwrap(), "bar bar bar");
}

#[test]
fn test_apply_ignored_y_flag() {
    let replacement = Replacement {
        files: vec![],
        regex: "/foo/y".to_string(),
        value: "bar".to_string(),
    };
    let result = apply("foo bar foo", &replacement);
    assert!(result.is_ok());
    assert_eq!(result.unwrap(), "bar bar bar");
}

#[test]
fn test_apply_mixed_ignored_and_supported_flags() {
    let replacement = Replacement {
        files: vec![],
        regex: "/HELLO/igu".to_string(),
        value: "hi".to_string(),
    };
    let result = apply("HELLO hello Hello", &replacement);
    assert!(result.is_ok());
    assert_eq!(result.unwrap(), "hi hi hi");
}

#[test]
fn test_apply_invalid_pattern() {
    let replacement = Replacement {
        files: vec![],
        regex: "/[invalid/".to_string(),
        value: "bar".to_string(),
    };
    let result = apply("test content", &replacement);
    assert!(result.is_err());
    let err = result.unwrap_err();
    assert!(matches!(err, KoseiError::RegexParseError(_)));
    assert!(err.to_string().contains("failed to compile regex pattern"));
}

#[test]
fn test_apply_with_capture_group() {
    let replacement = Replacement {
        files: vec![],
        regex: "/(\\w+)@(\\w+)/".to_string(),
        value: "$2.$1".to_string(),
    };
    let result = apply("user@domain", &replacement);
    assert!(result.is_ok());
    assert_eq!(result.unwrap(), "domain.user");
}

// Further cases.

#[test]
fn apply_without_match_leaves_text_unchanged() {
    let replacement = Replacement {
        files: vec![],
        regex: "/absent/".to_string(),
        value: "x".to_string(),
    };
    assert_eq!(apply("hello world", &replacement).unwrap(), "hello world");
}

#[test]
fn apply_rejects_malformed_literal_and_unknown_flag() {
    let no_slash = Replacement { files: vec![], regex: "foo".to_string(), value: "x".to_string() };
    match apply("foo", &no_slash) {
        Err(KoseiError::RegexParseError(m)) => {
            assert_eq!(m, "regex must use /pattern/flags format, got: `foo`")
        }
        other => panic!("unexpected {:?}", other),
    }
    let bad_flag = Replacement { files: vec![], regex: "/foo/z".to_string(), value: "x".to_string() };
    match apply("foo", &bad_flag) {
        Err(KoseiError::RegexParseError(m)) => assert_eq!(m, "unsupported regex flag: `z`"),
        other => panic!("unexpected {:?}", other),
    }
}

#[test]
fn apply_dot_all_spans_lines() {
    let replacement = Replacement {
        files: vec![],
        regex: "/BEGIN.*END/s".to_string(),
        value: "X".to_string(),
    };
    assert_eq!(apply("a BEGIN\n1\nEND b", &replacement).unwrap(), "a X b");
}

#[test]
fn validated_config_applies_to_any_content() {
    let envs = vec![(
        "dev".to_string(),
        Environment {
            description: None,
            replacements: vec![
                Replacement { files: vec!["a".to_string()], regex: "/x+/gi".to_string(), value: "y".to_string() },
                Replacement { files: vec!["b".to_string()], regex: "/^(\\d+)$/m".to_string(), value: "<$1>".to_string() },
            ],
        },
    )];
    assert!(ConfigLoader::validate_environments(&envs).is_ok());
    for content in ["", "XxX", "12\nab\n34", "no match here"] {
        for r in &envs[0].1.replacements {
            assert!(apply(content, r).is_ok());
        }
    }
    assert_eq!(apply("12\nab\n34", &envs[0].1.replacements[1]).unwrap(), "<12>\nab\n<34>");
}
