use pinpath::differ::{DiffTag, RawChange};
use pinpath::{LineChange, LineChangeType, TextDiffer};

#[test]
fn test_diff_lines_addition() {
    let differ = TextDiffer::new();
    let old = "line 1\nline 2\n";
    let new = "line 1\nline 2\nline 3\n";

    let changes = differ.diff_lines(old, new);

    assert!(changes.iter().any(|c| matches!(c.change_type, LineChangeType::Added)));
    assert_eq!(
        changes.iter().filter(|c| matches!(c.change_type, LineChangeType::Context)).count(),
        2
    );
}

#[test]
fn test_diff_lines_modification() {
    let differ = TextDiffer::new();
    let old = "line 1\nold line\nline 3\n";
    let new = "line 1\nnew line\nline 3\n";

    let changes = differ.diff_lines(old, new);

    assert!(changes.iter().any(|c| matches!(c.change_type, LineChangeType::Removed)));
    assert!(changes.iter().any(|c| matches!(c.change_type, LineChangeType::Added)));
}

#[test]
fn test_change_summary() {
    let differ = TextDiffer::new();
    let changes = vec![
        LineChange {
            line_number: 1,
            change_type: LineChangeType::Context,
            content: "unchanged".to_string(),
        },
        LineChange {
            line_number: 2,
            change_type: LineChangeType::Added,
            content: "new line".to_string(),
        },
    ];

    let summary = differ.get_change_summary(&changes);
    assert_eq!(summary.added, 1);
    assert_eq!(summary.context, 1);
}

fn shape(changes: &[LineChange]) -> Vec<(usize, char, String)> {
    changes
        .iter()
        .map(|c| {
            let tag = match c.change_type {
                LineChangeType::Added => '+',
                LineChangeType::Removed => '-',
                LineChangeType::Modified { .. } => '~',
                LineChangeType::Context => ' ',
            };
            (c.line_number, tag, c.content.clone())
        })
        .collect()
}

fn replay(changes: &[LineChange]) -> Vec<String> {
    changes
        .iter()
        .filter(|c| matches!(c.change_type, LineChangeType::Added | LineChangeType::Context))
        .map(|c| c.content.clone())
        .collect()
}

#[test]
fn diff_numbers_lines_in_new_coordinates() {
    let differ = TextDiffer::new();
    let changes = differ.diff_lines("line 1\nold line\nline 3\n", "line 1\nnew line\nline 3\n");
    assert_eq!(
        shape(&changes),
        vec![
            (1, ' ', "line 1".to_string()),
            (2, '-', "old line".to_string()),
            (2, '+', "new line".to_string()),
            (3, ' ', "line 3".to_string()),
        ]
    );
}

#[test]
fn diff_never_emits_modified() {
    let differ = TextDiffer::new();
    let changes = differ.diff_lines("a\nb\nc\n", "a\nB\nc\nd");
    assert!(!changes.iter().any(|c| matches!(c.change_type, LineChangeType::Modified { .. })));
    let summary = differ.get_change_summary(&changes);
    assert_eq!(summary.modified, 0);
    assert_eq!(summary.added, 2);
    assert_eq!(summary.removed, 1);
    assert_eq!(summary.context, 2);
}

#[test]
fn replaying_a_diff_rebuilds_the_new_lines() {
    let differ = TextDiffer::new();
    let cases = [
        ("", ""),
        ("", "a\nb\n"),
        ("a\nb\n", ""),
        ("a\nb\nc\n", "a\nc\nd\ne"),
        ("x\r\ny\r\n", "x\r\nz\r\ny"),
        ("one\n\n\nfour\n", "\none\nfour\n\n"),
        ("same\n", "same\n"),
    ];
    for (old, new) in cases {
        let changes = differ.diff_lines(old, new);
        let expected: Vec<String> = new
            .split_inclusive('\n')
            .map(|l| l.trim_end_matches('\n').to_string())
            .collect();
        assert_eq!(replay(&changes), expected, "old {:?} new {:?}", old, new);
    }
}

#[test]
fn diff_of_empty_texts_is_empty() {
    let differ = TextDiffer::new();
    assert_eq!(differ.diff_lines("", "").len(), 0);
}

#[test]
fn unfaithful_script_is_replaced() {
    let differ = TextDiffer::new();
    let script = vec![RawChange { tag: DiffTag::Equal, value: "bogus\n".to_string() }];
    let changes = differ.changes_from_script(script, "a\nb\n", "c\n");
    assert_eq!(
        shape(&changes),
        vec![
            (1, '-', "a".to_string()),
            (1, '-', "b".to_string()),
            (1, '+', "c".to_string()),
        ]
    );
}

#[test]
fn faithful_script_is_kept() {
    let differ = TextDiffer::new();
    let script = vec![
        RawChange { tag: DiffTag::Insert, value: "c\n".to_string() },
        RawChange { tag: DiffTag::Delete, value: "a\n".to_string() },
    ];
    let changes = differ.changes_from_script(script, "a\n", "c\n");
    assert_eq!(
        shape(&changes),
        vec![(1, '+', "c".to_string()), (2, '-', "a".to_string())]
    );
}

#[test]
fn diff_files_carries_both_texts() {
    let differ = TextDiffer::new();
    let diff = differ.diff_files("src/a.js", "x\n", "x\ny\n");
    assert_eq!(diff.path, "src/a.js");
    assert_eq!(diff.old_content, Some("x\n".to_string()));
    assert_eq!(diff.new_content, "x\ny\n");
    assert_eq!(
        shape(&diff.changes),
        vec![(1, ' ', "x".to_string()), (2, '+', "y".to_string())]
    );
}

#[test]
fn carriage_returns_end_lines_too() {
    let differ = TextDiffer::new();
    let changes = differ.diff_lines("x\r\ny\rz\n", "x\r\nY\rz\n");
    assert_eq!(
        shape(&changes),
        vec![
            (1, ' ', "x\r".to_string()),
            (2, '-', "y\r".to_string()),
            (2, '+', "Y\r".to_string()),
            (3, ' ', "z".to_string()),
        ]
    );
}
