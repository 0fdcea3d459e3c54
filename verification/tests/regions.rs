use pinpath::processor::{GitDelta, InputKind, ProcessError, RegionError, SourceInput};
use pinpath::{ChangeSource, CodeRegion, DiffProcessor, FileDiff, LineChange, LineChangeType, TextDiffer};
use std::time::SystemTime;

fn change(line_number: usize, change_type: LineChangeType, content: &str) -> LineChange {
    LineChange { line_number, change_type, content: content.to_string() }
}

fn diff_with(new_content: &str, changes: Vec<LineChange>) -> FileDiff {
    FileDiff {
        path: "src/app.js".to_string(),
        old_content: None,
        new_content: new_content.to_string(),
        changes,
    }
}

fn spans(regions: &[CodeRegion]) -> Vec<(usize, usize, String, usize)> {
    regions
        .iter()
        .map(|r| (r.start_line, r.end_line, r.content.clone(), r.change_types.len()))
        .collect()
}

const TEN_LINES: &str = "l1\nl2\nl3\nl4\nl5\nl6\nl7\nl8\nl9\nl10\n";

#[test]
fn region_reaches_context_lines_around_a_change() {
    let processor = DiffProcessor::new(false);
    let diff = TextDiffer::new().diff_files("a.js", "a\nb\nc\nd\ne\n", "a\nB\nc\nd\ne\n");
    let regions = processor.extract_changed_regions(&diff, 1).unwrap();
    assert_eq!(spans(&regions), vec![(1, 3, "a\nB\nc".to_string(), 2)]);
    assert!(regions[0].has_changes);
    assert!(matches!(regions[0].change_types[0], LineChangeType::Removed));
    assert!(matches!(regions[0].change_types[1], LineChangeType::Added));
}

#[test]
fn region_start_stops_at_the_first_line() {
    let processor = DiffProcessor::new(false);
    let diff = diff_with(
        TEN_LINES,
        vec![change(2, LineChangeType::Added, "l2"), change(3, LineChangeType::Context, "l3")],
    );
    let regions = processor.extract_changed_regions(&diff, 5).unwrap();
    assert_eq!(spans(&regions), vec![(1, 7, "l1\nl2\nl3\nl4\nl5\nl6\nl7".to_string(), 1)]);
}

#[test]
fn region_end_stops_at_the_last_line() {
    let processor = DiffProcessor::new(false);
    let diff = diff_with(
        TEN_LINES,
        vec![change(8, LineChangeType::Added, "l8"), change(9, LineChangeType::Context, "l9")],
    );
    let regions = processor.extract_changed_regions(&diff, 4).unwrap();
    assert_eq!(spans(&regions), vec![(4, 10, "l4\nl5\nl6\nl7\nl8\nl9\nl10".to_string(), 1)]);
}

#[test]
fn changes_inside_the_window_join_the_region() {
    let processor = DiffProcessor::new(false);
    let diff = diff_with(
        TEN_LINES,
        vec![
            change(2, LineChangeType::Added, "l2"),
            change(3, LineChangeType::Context, "l3"),
            change(4, LineChangeType::Added, "l4"),
            change(5, LineChangeType::Context, "l5"),
            change(6, LineChangeType::Context, "l6"),
            change(9, LineChangeType::Removed, "old"),
        ],
    );
    let regions = processor.extract_changed_regions(&diff, 2).unwrap();
    assert_eq!(
        spans(&regions),
        vec![
            (1, 6, "l1\nl2\nl3\nl4\nl5\nl6".to_string(), 2),
            (7, 10, "l7\nl8\nl9\nl10".to_string(), 1),
        ]
    );
    let narrow = processor.extract_changed_regions(&diff, 1).unwrap();
    assert_eq!(
        spans(&narrow),
        vec![
            (1, 3, "l1\nl2\nl3".to_string(), 1),
            (3, 5, "l3\nl4\nl5".to_string(), 1),
            (8, 10, "l8\nl9\nl10".to_string(), 1),
        ]
    );
}

#[test]
fn changes_behind_the_window_open_a_new_region() {
    let processor = DiffProcessor::new(false);
    let diff = diff_with(
        TEN_LINES,
        vec![
            change(2, LineChangeType::Added, "l2"),
            change(3, LineChangeType::Context, "l3"),
            change(7, LineChangeType::Added, "l7"),
            change(8, LineChangeType::Context, "l8"),
        ],
    );
    let regions = processor.extract_changed_regions(&diff, 0).unwrap();
    assert_eq!(
        spans(&regions),
        vec![(2, 2, "l2".to_string(), 1), (7, 7, "l7".to_string(), 1)]
    );
}

#[test]
fn trailing_changes_reach_the_end_of_the_file() {
    let processor = DiffProcessor::new(false);
    let diff = diff_with(TEN_LINES, vec![change(9, LineChangeType::Added, "l9")]);
    let regions = processor.extract_changed_regions(&diff, 2).unwrap();
    assert_eq!(spans(&regions), vec![(7, 10, "l7\nl8\nl9\nl10".to_string(), 1)]);
}

#[test]
fn no_changes_no_regions() {
    let processor = DiffProcessor::new(false);
    let only_context = diff_with(TEN_LINES, vec![change(1, LineChangeType::Context, "l1")]);
    assert_eq!(processor.extract_changed_regions(&only_context, 3).unwrap().len(), 0);
    let nothing = diff_with(TEN_LINES, vec![]);
    assert_eq!(processor.extract_changed_regions(&nothing, 3).unwrap().len(), 0);
}

#[test]
fn changes_that_do_not_fit_the_text_are_refused() {
    let processor = DiffProcessor::new(false);
    let diff = diff_with("one\ntwo\n", vec![change(40, LineChangeType::Added, "x")]);
    let result = processor.extract_changed_regions(&diff, 1);
    assert_eq!(result.err(), Some(RegionError::InvalidLineRange));
    assert_eq!(RegionError::InvalidLineRange.message(), "Invalid line range");
}

#[test]
fn regions_cover_the_file_when_everything_changed() {
    let processor = DiffProcessor::new(false);
    let diff = TextDiffer::new().diff_files("a.js", "", "x\r\ny\nz");
    let regions = processor.extract_changed_regions(&diff, 3).unwrap();
    assert_eq!(spans(&regions), vec![(1, 3, "x\ny\nz".to_string(), 3)]);
}

#[test]
fn create_region_cuts_lines() {
    let processor = DiffProcessor::new(false);
    let lines: Vec<Vec<char>> = ["a", "b", "c"].iter().map(|l| l.chars().collect()).collect();
    let region = processor.create_region(2, 3, &lines, vec![LineChangeType::Added]).unwrap();
    assert_eq!((region.start_line, region.end_line), (2, 3));
    assert_eq!(region.content, "b\nc");
    assert!(region.has_changes);
    let empty = processor.create_region(3, 2, &lines, vec![]).unwrap();
    assert_eq!(empty.content, "");
    assert!(!empty.has_changes);
    assert!(processor.create_region(1, 4, &lines, vec![]).is_err());
    assert!(processor.create_region(4, 2, &lines, vec![]).is_err());
}

#[test]
fn file_change_without_cached_content_has_no_line_changes() {
    let processor = DiffProcessor::new(false);
    let now = SystemTime::now();
    let source = ChangeSource::FileSystem { path: "a.js".to_string(), modified: now };
    assert_eq!(processor.required_input(&source), Ok(InputKind::FileContent));
    let event = processor
        .process_change(
            source,
            SourceInput::File { content: "x\ny\n".to_string(), cached: None },
            now,
        )
        .unwrap();
    assert_eq!(event.timestamp, now);
    assert_eq!(event.diffs.len(), 1);
    assert_eq!(event.diffs[0].path, "a.js");
    assert_eq!(event.diffs[0].old_content, None);
    assert_eq!(event.diffs[0].new_content, "x\ny\n");
    assert_eq!(event.diffs[0].changes.len(), 0);
}

#[test]
fn file_change_with_cached_content_is_diffed() {
    let processor = DiffProcessor::new(false);
    let now = SystemTime::now();
    let source = ChangeSource::FileSystem { path: "a.js".to_string(), modified: now };
    let event = processor
        .process_change(
            source,
            SourceInput::File { content: "x\ny\n".to_string(), cached: Some("x\n".to_string()) },
            now,
        )
        .unwrap();
    assert_eq!(event.diffs[0].old_content, Some("x\n".to_string()));
    assert_eq!(event.diffs[0].changes.len(), 2);
    assert!(matches!(event.diffs[0].changes[1].change_type, LineChangeType::Added));
    assert_eq!(event.diffs[0].changes[1].line_number, 2);
}

#[test]
fn git_changes_need_git() {
    let without = DiffProcessor::new(false);
    let with = DiffProcessor::new(true);
    let now = SystemTime::now();
    let commit = ChangeSource::GitCommit { hash: "abc".to_string(), files: vec![] };
    assert_eq!(without.required_input(&commit), Err(ProcessError::GitUnavailable));
    assert_eq!(with.required_input(&commit), Ok(InputKind::CommitDeltas));
    let range = ChangeSource::GitDiff { from: "a".to_string(), to: "b".to_string() };
    assert_eq!(with.required_input(&range), Ok(InputKind::RangeDeltas));
    let refused = without.process_change(range, SourceInput::Deltas(vec![]), now);
    assert_eq!(refused.err(), Some(ProcessError::GitUnavailable));
    assert_eq!(ProcessError::GitUnavailable.message(), "Git integration not available");
}

#[test]
fn git_deltas_become_one_diff_per_path() {
    let processor = DiffProcessor::new(true);
    let now = SystemTime::now();
    let range = ChangeSource::GitDiff { from: "a".to_string(), to: "b".to_string() };
    let deltas = vec![
        GitDelta {
            path: "a.js".to_string(),
            old_text: Some("x\n".to_string()),
            new_text: Some("y\n".to_string()),
        },
        GitDelta { path: "b.bin".to_string(), old_text: None, new_text: None },
        GitDelta { path: "c.py".to_string(), old_text: None, new_text: Some("z\n".to_string()) },
    ];
    let event = processor.process_change(range, SourceInput::Deltas(deltas), now).unwrap();
    assert_eq!(event.diffs.len(), 3);
    assert_eq!(event.diffs[0].path, "a.js");
    assert_eq!(event.diffs[0].changes.len(), 2);
    assert_eq!(event.diffs[1].path, "b.bin");
    assert_eq!(event.diffs[1].new_content, "");
    assert_eq!(event.diffs[1].changes.len(), 0);
    assert_eq!(event.diffs[1].old_content, None);
    assert_eq!(event.diffs[2].new_content, "z\n");
    assert_eq!(event.diffs[2].changes.len(), 0);
}

#[test]
fn manual_changes_bring_no_diffs() {
    let processor = DiffProcessor::new(false);
    let now = SystemTime::now();
    let source = ChangeSource::Manual { description: "rescan".to_string() };
    assert_eq!(processor.required_input(&source), Ok(InputKind::Nothing));
    let event = processor.process_change(source, SourceInput::Nothing, now).unwrap();
    assert_eq!(event.diffs.len(), 0);
    assert!(matches!(event.source, ChangeSource::Manual { .. }));
}

#[test]
fn input_of_the_wrong_kind_is_refused() {
    let processor = DiffProcessor::new(true);
    let now = SystemTime::now();
    let source = ChangeSource::FileSystem { path: "a.js".to_string(), modified: now };
    let refused = processor.process_change(source, SourceInput::Deltas(vec![]), now);
    assert_eq!(refused.err(), Some(ProcessError::InputMismatch));
    let commit = ChangeSource::GitCommit { hash: "abc".to_string(), files: vec![] };
    let refused = processor.process_change(commit, SourceInput::Nothing, now);
    assert_eq!(refused.err(), Some(ProcessError::InputMismatch));
}

#[test]
fn region_takes_as_many_context_lines_behind_a_change_as_before_it() {
    let processor = DiffProcessor::new(false);
    let diff = diff_with(
        "l1\nl2\nl3\nl4\nl5\nl6\nl7",
        vec![
            change(1, LineChangeType::Context, "l1"),
            change(2, LineChangeType::Context, "l2"),
            change(3, LineChangeType::Context, "l3"),
            change(4, LineChangeType::Added, "l4"),
            change(5, LineChangeType::Context, "l5"),
            change(6, LineChangeType::Context, "l6"),
            change(7, LineChangeType::Context, "l7"),
        ],
    );
    let one = processor.extract_changed_regions(&diff, 1).unwrap();
    assert_eq!(spans(&one), vec![(3, 5, "l3\nl4\nl5".to_string(), 1)]);
    let none = processor.extract_changed_regions(&diff, 0).unwrap();
    assert_eq!(spans(&none), vec![(4, 4, "l4".to_string(), 1)]);
    let two = processor.extract_changed_regions(&diff, 2).unwrap();
    assert_eq!(spans(&two), vec![(2, 6, "l2\nl3\nl4\nl5\nl6".to_string(), 1)]);
    let wide = processor.extract_changed_regions(&diff, 9).unwrap();
    assert_eq!(spans(&wide), vec![(1, 7, "l1\nl2\nl3\nl4\nl5\nl6\nl7".to_string(), 1)]);
}

#[test]
fn removed_line_without_context_budget_cuts_nothing() {
    let processor = DiffProcessor::new(false);
    let diff = diff_with(
        "l1\nl2\n",
        vec![
            change(1, LineChangeType::Removed, "old"),
            change(1, LineChangeType::Context, "l1"),
            change(2, LineChangeType::Context, "l2"),
        ],
    );
    let regions = processor.extract_changed_regions(&diff, 0).unwrap();
    assert_eq!(spans(&regions), vec![(1, 0, "".to_string(), 1)]);
}
