use kosei_cli::commands::{Switch, SwitchAction, SwitchEvent, SwitchReport};
use kosei_cli::config::{Config, Environment, Replacement};
use kosei_cli::error::IoErrorKind;
use kosei_cli::KoseiError;
use std::collections::HashMap;
use std::path::PathBuf;

/// What a run of the switch did besides its result.
#[derive(Default)]
struct Trace {
    writes: Vec<(String, String)>,
    diffs: Vec<(String, String, String)>,
    warned: bool,
    announced: bool,
    report: Option<SwitchReport>,
}

/// Drives a switch against files held in memory.
fn run(
    config: &Config,
    environment: &str,
    dry_run: bool,
    files: &mut HashMap<String, String>,
) -> (Result<(), KoseiError>, Trace) {
    let mut trace = Trace::default();
    let (mut sw, mut action) = match Switch::start(config, environment, dry_run) {
        Ok(started) => started,
        Err(e) => return (Err(e), trace),
    };
    loop {
        action = match action {
            SwitchAction::Warn(_) => {
                trace.warned = true;
                return (Ok(()), trace);
            }
            SwitchAction::AnnounceDryRun => {
                trace.announced = true;
                sw.step(SwitchEvent::Done)
            }
            SwitchAction::CheckFiles(names) => {
                let exists = names.iter().map(|n| files.contains_key(n)).collect();
                sw.step(SwitchEvent::Checked(exists))
            }
            SwitchAction::Read(file) => match files.get(&file) {
                Some(content) => sw.step(SwitchEvent::Read(content.clone())),
                None => sw.step(SwitchEvent::ReadFailed(
                    format!("./{}", file),
                    "No such file or directory (os error 2)".to_string(),
                    IoErrorKind::NotFound,
                )),
            },
            SwitchAction::Write(file, content) => {
                trace.writes.push((file.clone(), content.clone()));
                files.insert(file, content);
                sw.step(SwitchEvent::Done)
            }
            SwitchAction::ShowDiff(file, before, after) => {
                trace.diffs.push((file, before, after));
                sw.step(SwitchEvent::Done)
            }
            SwitchAction::Finish(report) => {
                trace.report = Some(report);
                return (Ok(()), trace);
            }
            SwitchAction::Fail(e) => return (Err(e), trace),
        };
    }
}

fn create_test_env(replacements: Vec<Replacement>) -> Environment {
    Environment {
        description: None,
        replacements,
    }
}

fn create_test_config(environments: Vec<(String, Environment)>) -> Config {
    Config {
        environments,
        base_dir: PathBuf::from("."),
    }
}

fn one_file(name: &str, content: &str) -> HashMap<String, String> {
    let mut files = HashMap::new();
    files.insert(name.to_string(), content.to_string());
    files
}

#[test]
fn test_execute_environment_not_found() {
    let config = create_test_config(vec![("prod".to_string(), create_test_env(vec![]))]);
    let mut files = HashMap::new();
    let (result, _) = run(&config, "dev", false, &mut files);
    assert!(result.is_err());

    match result.unwrap_err() {
        KoseiError::EnvironmentNotFound(msg) => {
            assert!(msg.contains("dev"));
            assert!(msg.contains("prod"));
        }
        _ => panic!("Expected EnvironmentNotFound error"),
    }
}

#[test]
fn test_execute_dry_run_no_changes() {
    let mut files = one_file("test.txt", "hello world");
    let config = create_test_config(vec![(
        "test".to_string(),
        create_test_env(vec![Replacement {
            files: vec!["test.txt".to_string()],
            regex: "/nonexistent/".to_string(),
            value: "replaced".to_string(),
        }]),
    )]);

    let (result, trace) = run(&config, "test", true, &mut files);
    assert!(result.is_ok());
    assert_eq!(files["test.txt"], "hello world");
    assert!(trace.announced);
    assert!(trace.writes.is_empty());
    assert_eq!(trace.report, Some(SwitchReport::NoChanges));
}

#[test]
fn test_execute_applies_changes() {
    let mut files = one_file("test.txt", "hello world");
    let config = create_test_config(vec![(
        "test".to_string(),
        create_test_env(vec![Replacement {
            files: vec!["test.txt".to_string()],
            regex: "/world/".to_string(),
            value: "universe".to_string(),
        }]),
    )]);

    let (result, trace) = run(&config, "test", false, &mut files);
    assert!(result.is_ok());
    assert_eq!(files["test.txt"], "hello universe");
    assert_eq!(trace.report, Some(SwitchReport::Switched));
}

#[test]
fn test_execute_file_not_found() {
    let mut files = HashMap::new();
    let config = create_test_config(vec![(
        "test".to_string(),
        create_test_env(vec![Replacement {
            files: vec!["nonexistent.txt".to_string()],
            regex: "/test/".to_string(),
            value: "replaced".to_string(),
        }]),
    )]);

    let (result, _) = run(&config, "test", false, &mut files);
    assert!(result.is_err());

    match result.unwrap_err() {
        KoseiError::FileReadError(msg, _) => {
            assert!(msg.contains("nonexistent.txt"));
        }
        _ => panic!("Expected FileReadError"),
    }
}

#[test]
fn test_execute_invalid_regex() {
    let mut files = one_file("test.txt", "hello world");
    let config = create_test_config(vec![(
        "test".to_string(),
        create_test_env(vec![Replacement {
            files: vec!["test.txt".to_string()],
            regex: "/[invalid/".to_string(),
            value: "replaced".to_string(),
        }]),
    )]);

    let (result, _) = run(&config, "test", false, &mut files);
    assert!(result.is_err());

    match result.unwrap_err() {
        KoseiError::RegexApplyError(msg) => {
            assert!(msg.contains("replacement failed"));
        }
        _ => panic!("Expected RegexApplyError"),
    }
}

#[test]
fn test_execute_empty_replacements() {
    let config = create_test_config(vec![("test".to_string(), create_test_env(vec![]))]);
    let mut files = HashMap::new();
    let (result, trace) = run(&config, "test", false, &mut files);
    assert!(result.is_ok());
    assert!(trace.warned);
}

#[test]
fn test_execute_missing_files_error() {
    let mut files = one_file("exists.txt", "content");
    let config = create_test_config(vec![(
        "test".to_string(),
        create_test_env(vec![Replacement {
            files: vec!["exists.txt".to_string(), "missing.txt".to_string()],
            regex: "/content/".to_string(),
            value: "updated".to_string(),
        }]),
    )]);

    let (result, trace) = run(&config, "test", false, &mut files);
    assert!(result.is_err());
    assert_eq!(files["exists.txt"], "content");
    assert!(trace.writes.is_empty());
}

#[test]
fn test_execute_all_files_missing_error() {
    let mut files = HashMap::new();
    let config = create_test_config(vec![(
        "test".to_string(),
        create_test_env(vec![Replacement {
            files: vec!["missing1.txt".to_string(), "missing2.txt".to_string()],
            regex: "/test/".to_string(),
            value: "replaced".to_string(),
        }]),
    )]);

    let (result, _) = run(&config, "test", false, &mut files);
    assert!(result.is_err());
}

#[test]
fn test_execute_dry_run_with_missing_files() {
    let mut files = one_file("exists.txt", "content");
    let config = create_test_config(vec![(
        "test".to_string(),
        create_test_env(vec![Replacement {
            files: vec!["exists.txt".to_string(), "missing.txt".to_string()],
            regex: "/content/".to_string(),
            value: "updated".to_string(),
        }]),
    )]);

    let (result, _) = run(&config, "test", true, &mut files);
    assert!(result.is_err());
    assert_eq!(files["exists.txt"], "content");
}

#[test]
fn test_execute_multiple_files() {
    let mut files = one_file("file1.txt", "foo bar");
    files.insert("file2.txt".to_string(), "foo baz".to_string());
    let config = create_test_config(vec![(
        "test".to_string(),
        create_test_env(vec![Replacement {
            files: vec!["file1.txt".to_string(), "file2.txt".to_string()],
            regex: "/foo/".to_string(),
            value: "FOO".to_string(),
        }]),
    )]);

    let (result, _) = run(&config, "test", false, &mut files);
    assert!(result.is_ok());
    assert_eq!(files["file1.txt"], "FOO bar");
    assert_eq!(files["file2.txt"], "FOO baz");
}

// Further cases.

#[test]
fn not_found_message_lists_sorted_names() {
    let config = create_test_config(vec![
        ("staging".to_string(), create_test_env(vec![])),
        ("dev".to_string(), create_test_env(vec![])),
        ("prod".to_string(), create_test_env(vec![])),
    ]);
    let mut files = HashMap::new();
    match run(&config, "qa", false, &mut files).0 {
        Err(KoseiError::EnvironmentNotFound(m)) => assert_eq!(
            m,
            "environment `qa` not found in kosei.yaml\navailable: dev, prod, staging"
        ),
        other => panic!("unexpected {:?}", other),
    }
}

#[test]
fn missing_files_message_lists_each_missing_file() {
    let mut files = one_file("a.txt", "x");
    let config = create_test_config(vec![(
        "test".to_string(),
        create_test_env(vec![
            Replacement {
                files: vec!["b.txt".to_string(), "a.txt".to_string()],
                regex: "/x/".to_string(),
                value: "y".to_string(),
            },
            Replacement {
                files: vec!["c.txt".to_string()],
                regex: "/x/".to_string(),
                value: "y".to_string(),
            },
        ]),
    )]);
    match run(&config, "test", false, &mut files).0 {
        Err(KoseiError::FileReadError(m, kind)) => {
            assert_eq!(
                m,
                "There were issues resolving files from paths:\n  - b.txt\n  - c.txt\n"
            );
            assert_eq!(kind, IoErrorKind::NotFound);
        }
        other => panic!("unexpected {:?}", other),
    }
}

#[test]
fn later_replacements_apply_to_earlier_results() {
    let mut files = one_file("f.txt", "a");
    let config = create_test_config(vec![(
        "test".to_string(),
        create_test_env(vec![
            Replacement { files: vec!["f.txt".to_string()], regex: "/a/".to_string(), value: "b".to_string() },
            Replacement { files: vec!["f.txt".to_string()], regex: "/b/".to_string(), value: "c".to_string() },
        ]),
    )]);
    let (result, trace) = run(&config, "test", false, &mut files);
    assert!(result.is_ok());
    assert_eq!(files["f.txt"], "c");
    assert_eq!(trace.writes, vec![("f.txt".to_string(), "c".to_string())]);
}

#[test]
fn dry_run_shows_one_composed_diff_per_file() {
    let mut files = one_file("f.txt", "a\n");
    files.insert("g.txt".to_string(), "a\n".to_string());
    let config = create_test_config(vec![(
        "test".to_string(),
        create_test_env(vec![
            Replacement {
                files: vec!["g.txt".to_string(), "f.txt".to_string()],
                regex: "/a/".to_string(),
                value: "b".to_string(),
            },
            Replacement { files: vec!["f.txt".to_string()], regex: "/b/".to_string(), value: "c".to_string() },
        ]),
    )]);
    let (result, trace) = run(&config, "test", true, &mut files);
    assert!(result.is_ok());
    assert!(trace.writes.is_empty());
    assert_eq!(
        trace.diffs,
        vec![
            ("g.txt".to_string(), "a\n".to_string(), "b\n".to_string()),
            ("f.txt".to_string(), "a\n".to_string(), "c\n".to_string()),
        ]
    );
    assert_eq!(trace.report, Some(SwitchReport::Quiet));
}

#[test]
fn dry_run_reports_no_changes_when_rules_cancel_out() {
    let mut files = one_file("f.txt", "a");
    let config = create_test_config(vec![(
        "test".to_string(),
        create_test_env(vec![
            Replacement { files: vec!["f.txt".to_string()], regex: "/a/".to_string(), value: "b".to_string() },
            Replacement { files: vec!["f.txt".to_string()], regex: "/b/".to_string(), value: "a".to_string() },
        ]),
    )]);
    let (result, trace) = run(&config, "test", true, &mut files);
    assert!(result.is_ok());
    assert!(trace.diffs.is_empty());
    assert_eq!(trace.report, Some(SwitchReport::NoChanges));
}

#[test]
fn failing_replacement_leaves_every_file_untouched() {
    let mut files = one_file("f.txt", "a");
    files.insert("g.txt".to_string(), "a".to_string());
    let config = create_test_config(vec![(
        "test".to_string(),
        create_test_env(vec![
            Replacement { files: vec!["f.txt".to_string()], regex: "/a/".to_string(), value: "b".to_string() },
            Replacement { files: vec!["g.txt".to_string()], regex: "/a/z".to_string(), value: "b".to_string() },
        ]),
    )]);
    let (result, trace) = run(&config, "test", false, &mut files);
    assert!(matches!(result, Err(KoseiError::RegexApplyError(_))));
    assert!(trace.writes.is_empty());
    assert_eq!(files["f.txt"], "a");
    assert_eq!(files["g.txt"], "a");
}

#[test]
fn unreadable_file_stops_the_switch_before_any_write() {
    let config = create_test_config(vec![(
        "test".to_string(),
        create_test_env(vec![Replacement {
            files: vec!["f.txt".to_string(), "g.txt".to_string()],
            regex: "/a/".to_string(),
            value: "b".to_string(),
        }]),
    )]);
    let (mut sw, _) = Switch::start(&config, "test", false).unwrap();
    let action = sw.step(SwitchEvent::Checked(vec![true, true]));
    assert!(matches!(action, SwitchAction::Read(ref f) if f == "f.txt"));
    let action = sw.step(SwitchEvent::Read("a".to_string()));
    assert!(matches!(action, SwitchAction::Read(ref f) if f == "g.txt"));
    match sw.step(SwitchEvent::ReadFailed(
        "./g.txt".to_string(),
        "Permission denied (os error 13)".to_string(),
        IoErrorKind::PermissionDenied,
    )) {
        SwitchAction::Fail(KoseiError::FileReadError(m, kind)) => {
            assert_eq!(m, "cannot read `./g.txt`: Permission denied (os error 13)");
            assert_eq!(kind, IoErrorKind::PermissionDenied);
        }
        other => panic!("unexpected {:?}", other),
    }
}

#[test]
fn dry_run_shows_diffs_and_writes_nothing() {
    let mut files = one_file("f.txt", "a\n");
    files.insert("g.txt".to_string(), "z\n".to_string());
    let config = create_test_config(vec![(
        "test".to_string(),
        create_test_env(vec![Replacement {
            files: vec!["f.txt".to_string(), "g.txt".to_string()],
            regex: "/a/".to_string(),
            value: "b".to_string(),
        }]),
    )]);
    let (result, trace) = run(&config, "test", true, &mut files);
    assert!(result.is_ok());
    assert!(trace.writes.is_empty());
    assert_eq!(
        trace.diffs,
        vec![("f.txt".to_string(), "a\n".to_string(), "b\n".to_string())]
    );
    assert_eq!(trace.report, Some(SwitchReport::Quiet));
    assert_eq!(files["f.txt"], "a\n");
}

#[test]
fn read_and_write_failures_carry_path_and_kind() {
    let config = create_test_config(vec![(
        "test".to_string(),
        create_test_env(vec![Replacement {
            files: vec!["f.txt".to_string()],
            regex: "/a/".to_string(),
            value: "b".to_string(),
        }]),
    )]);
    let (mut sw, action) = Switch::start(&config, "test", false).unwrap();
    assert!(matches!(action, SwitchAction::CheckFiles(_)));
    let action = sw.step(SwitchEvent::Checked(vec![true]));
    assert!(matches!(action, SwitchAction::Read(ref f) if f == "f.txt"));
    match sw.step(SwitchEvent::ReadFailed(
        "/base/f.txt".to_string(),
        "Permission denied (os error 13)".to_string(),
        IoErrorKind::PermissionDenied,
    )) {
        SwitchAction::Fail(e) => {
            assert_eq!(
                e.to_string(),
                "Failed to read file: cannot read `/base/f.txt`: Permission denied (os error 13) (permission denied reading)"
            );
        }
        other => panic!("unexpected {:?}", other),
    }

    let (mut sw, _) = Switch::start(&config, "test", false).unwrap();
    sw.step(SwitchEvent::Checked(vec![true]));
    let action = sw.step(SwitchEvent::Read("a".to_string()));
    assert!(matches!(action, SwitchAction::Write(ref f, ref c) if f == "f.txt" && c == "b"));
    match sw.step(SwitchEvent::WriteFailed(
        "/base/f.txt".to_string(),
        "Read-only file system (os error 30)".to_string(),
        IoErrorKind::Other,
    )) {
        SwitchAction::Fail(KoseiError::FileWriteError(m, kind)) => {
            assert_eq!(m, "cannot write `/base/f.txt`: Read-only file system (os error 30)");
            assert_eq!(kind, IoErrorKind::Other);
        }
        other => panic!("unexpected {:?}", other),
    }
}

#[test]
fn empty_replacements_warning_text() {
    let config = create_test_config(vec![("test".to_string(), create_test_env(vec![]))]);
    match Switch::start(&config, "test", true) {
        Ok((_, SwitchAction::Warn(w))) => assert_eq!(
            w,
            "warning: environment 'test' has no replacements defined \u{2014} nothing will be changed"
        ),
        other => panic!("unexpected {:?}", other.map(|(_, a)| a)),
    }
}

#[test]
fn invalid_regex_apply_error_text() {
    let mut files = one_file("test.txt", "hello");
    let config = create_test_config(vec![(
        "test".to_string(),
        create_test_env(vec![Replacement {
            files: vec!["test.txt".to_string()],
            regex: "/x/q".to_string(),
            value: "y".to_string(),
        }]),
    )]);
    match run(&config, "test", false, &mut files).0 {
        Err(KoseiError::RegexApplyError(m)) => assert_eq!(
            m,
            "replacement failed for `test.txt`: Failed to parse regex: unsupported regex flag: `q`"
        ),
        other => panic!("unexpected {:?}", other),
    }
}
