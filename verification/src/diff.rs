//! The change model: where a change came from and what it did to each file.

use std::time::SystemTime;
use vstd::prelude::*;

verus! {

#[verifier::external_type_specification]
#[verifier::external_body]
pub struct ExSystemTime(SystemTime);

/// Reads the clock with `SystemTime::now`. Nothing is promised of the value.
#[verifier::external_body]
pub(crate) fn current_time() -> SystemTime {
    SystemTime::now()
}

/// What happened to one line.
#[derive(Debug)]
pub enum LineChangeType {
    Added,
    Removed,
    Modified { old_content: String },
    /// An unchanged line, kept for context.
    Context,
}

/// The mathematical value of a [`LineChangeType`].
pub enum LineChangeKind {
    Added,
    Removed,
    Modified { old_content: Seq<char> },
    Context,
}

impl View for LineChangeType {
    type V = LineChangeKind;

    open spec fn view(&self) -> LineChangeKind {
        match self {
            LineChangeType::Added => LineChangeKind::Added,
            LineChangeType::Removed => LineChangeKind::Removed,
            LineChangeType::Modified { old_content } => LineChangeKind::Modified {
                old_content: old_content@,
            },
            LineChangeType::Context => LineChangeKind::Context,
        }
    }
}

impl Clone for LineChangeType {
    fn clone(&self) -> (out: Self)
        ensures
            out@ == self@,
    {
        match self {
            LineChangeType::Added => LineChangeType::Added,
            LineChangeType::Removed => LineChangeType::Removed,
            LineChangeType::Modified { old_content } => LineChangeType::Modified {
                old_content: old_content.clone(),
            },
            LineChangeType::Context => LineChangeType::Context,
        }
    }
}

/// One line of a diff. `line_number` counts lines of the new text from 1; a
/// removed line carries the number of the new line it would precede.
#[derive(Debug)]
pub struct LineChange {
    pub line_number: usize,
    pub change_type: LineChangeType,
    pub content: String,
}

/// The mathematical value of a [`LineChange`].
pub struct LineChangeView {
    pub line_number: usize,
    pub change_type: LineChangeKind,
    pub content: Seq<char>,
}

impl View for LineChange {
    type V = LineChangeView;

    open spec fn view(&self) -> LineChangeView {
        LineChangeView {
            line_number: self.line_number,
            change_type: self.change_type@,
            content: self.content@,
        }
    }
}

impl Clone for LineChange {
    fn clone(&self) -> (out: Self)
        ensures
            out@ == self@,
    {
        LineChange {
            line_number: self.line_number,
            change_type: self.change_type.clone(),
            content: self.content.clone(),
        }
    }
}

/// The values of a list of line changes.
pub open spec fn line_change_views(s: Seq<LineChange>) -> Seq<LineChangeView> {
    Seq::new(s.len(), |i: int| s[i]@)
}

/// The values of a list of change types.
pub open spec fn change_kind_views(s: Seq<LineChangeType>) -> Seq<LineChangeKind> {
    Seq::new(s.len(), |i: int| s[i]@)
}

/// The change of one file: its new text, its old text where known, and the
/// line changes between the two where they were computed.
#[derive(Debug)]
pub struct FileDiff {
    pub path: String,
    pub old_content: Option<String>,
    pub new_content: String,
    pub changes: Vec<LineChange>,
}

/// The mathematical value of a [`FileDiff`].
pub struct FileDiffView {
    pub path: Seq<char>,
    pub old_content: Option<Seq<char>>,
    pub new_content: Seq<char>,
    pub changes: Seq<LineChangeView>,
}

impl View for FileDiff {
    type V = FileDiffView;

    open spec fn view(&self) -> FileDiffView {
        FileDiffView {
            path: self.path@,
            old_content: match self.old_content {
                Some(text) => Some(text@),
                None => None,
            },
            new_content: self.new_content@,
            changes: line_change_views(self.changes@),
        }
    }
}

/// The values of a list of file diffs.
pub open spec fn file_diff_views(s: Seq<FileDiff>) -> Seq<FileDiffView> {
    Seq::new(s.len(), |i: int| s[i]@)
}

/// Where a change came from.
#[derive(Debug)]
pub enum ChangeSource {
    FileSystem { path: String, modified: SystemTime },
    GitCommit { hash: String, files: Vec<String> },
    GitDiff { from: String, to: String },
    Manual { description: String },
}

/// A change together with the file diffs it brought.
#[derive(Debug)]
pub struct ChangeEvent {
    pub source: ChangeSource,
    pub diffs: Vec<FileDiff>,
    pub timestamp: SystemTime,
}

/// A run of lines around changes, cut out of the new text.
#[derive(Debug)]
pub struct CodeRegion {
    pub start_line: usize,
    pub end_line: usize,
    pub content: String,
    pub has_changes: bool,
    pub change_types: Vec<LineChangeType>,
}

/// The mathematical value of a [`CodeRegion`].
pub struct CodeRegionView {
    pub start_line: usize,
    pub end_line: usize,
    pub content: Seq<char>,
    pub has_changes: bool,
    pub change_types: Seq<LineChangeKind>,
}

impl View for CodeRegion {
    type V = CodeRegionView;

    open spec fn view(&self) -> CodeRegionView {
        CodeRegionView {
            start_line: self.start_line,
            end_line: self.end_line,
            content: self.content@,
            has_changes: self.has_changes,
            change_types: change_kind_views(self.change_types@),
        }
    }
}

/// The values of a list of regions.
pub open spec fn region_views(s: Seq<CodeRegion>) -> Seq<CodeRegionView> {
    Seq::new(s.len(), |i: int| s[i]@)
}

} // verus!
