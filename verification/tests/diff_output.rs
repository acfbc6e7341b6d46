use kosei_cli::replacer::diff::{changed_lines, ChangeKind};

fn lines(original: &str, updated: &str) -> Vec<(ChangeKind, String)> {
    changed_lines(original, updated)
        .into_iter()
        .map(|l| (l.kind, l.text))
        .collect()
}

#[test]
fn test_diff_no_changes() {
    let original = "line 1\nline 2\nline 3\n";
    let updated = "line 1\nline 2\nline 3\n";
    assert!(lines(original, updated).is_empty());
}

#[test]
fn test_diff_displays_removed_lines() {
    let original = "line 1\nline 2\nline 3\n";
    let updated = "line 1\nline 3\n";
    assert_eq!(
        lines(original, updated),
        vec![(ChangeKind::Delete, "line 2".to_string())]
    );
}

#[test]
fn test_diff_displays_added_lines() {
    let original = "line 1\nline 3\n";
    let updated = "line 1\nline 2\nline 3\n";
    assert_eq!(
        lines(original, updated),
        vec![(ChangeKind::Insert, "line 2".to_string())]
    );
}

#[test]
fn test_diff_handles_multiline() {
    let original = "line 1\nline 2\nline 3\nline 4\n";
    let updated = "line 1\nline 2 modified\nline 3\nline 4\n";
    assert_eq!(
        lines(original, updated),
        vec![
            (ChangeKind::Delete, "line 2".to_string()),
            (ChangeKind::Insert, "line 2 modified".to_string()),
        ]
    );
}

#[test]
fn test_diff_empty_to_content() {
    let original = "";
    let updated = "new line 1\nnew line 2\n";
    assert_eq!(
        lines(original, updated),
        vec![
            (ChangeKind::Insert, "new line 1".to_string()),
            (ChangeKind::Insert, "new line 2".to_string()),
        ]
    );
}

#[test]
fn test_diff_content_to_empty() {
    let original = "line 1\nline 2\n";
    let updated = "";
    assert_eq!(
        lines(original, updated),
        vec![
            (ChangeKind::Delete, "line 1".to_string()),
            (ChangeKind::Delete, "line 2".to_string()),
        ]
    );
}

#[test]
fn diff_trims_trailing_white_space_of_shown_lines() {
    assert_eq!(
        lines("a  \t\r\nb\n", "a  \t\r\nc \n"),
        vec![
            (ChangeKind::Delete, "b".to_string()),
            (ChangeKind::Insert, "c".to_string()),
        ]
    );
}

#[test]
fn texts_that_differ_only_in_trailing_space_still_show_lines() {
    let lines = changed_lines("a \nb\n", "a\nb\n");
    assert_eq!(lines.len(), 2);
    assert_eq!(lines[0].kind, ChangeKind::Delete);
    assert_eq!(lines[0].text, "a");
    assert_eq!(lines[1].kind, ChangeKind::Insert);
    assert_eq!(lines[1].text, "a");
}
