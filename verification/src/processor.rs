//! Turning changes into events, and cutting changed regions out of a file.

use vstd::prelude::*;
use crate::diff::{
    ChangeSource, CodeRegion, CodeRegionView, FileDiff, LineChange, LineChangeKind,
    LineChangeType, LineChangeView, change_kind_views, line_change_views, region_views,
};
use crate::differ::TextDiffer;
use crate::text::{append_chars, chars_of, lines, rows, split_lines, text_of_all};

verus! {

/// Why no regions could be cut.
#[derive(Debug, Clone, Copy, PartialEq, Eq, Structural)]
pub enum RegionError {
    /// A region would start behind its own end: the line changes do not
    /// belong to the text.
    InvalidLineRange,
}

impl RegionError {
    /// A sentence for logs.
    pub fn message(&self) -> (out: &'static str)
        ensures
            out@ == "Invalid line range"@,
    {
        "Invalid line range"
    }
}

/// The lines that a region covers, by number, and the changes it holds.
pub struct Span {
    pub start: usize,
    pub end: usize,
    pub kinds: Seq<LineChangeKind>,
}

/// A region that is still growing. `window_end` is set once a context line
/// has followed the changes: the region then reaches as far as its context
/// budget allows, and only a change inside this window can still join it.
pub struct OpenSpan {
    pub start: usize,
    pub kinds: Seq<LineChangeKind>,
    pub window_end: Option<usize>,
}

/// The state of a scan over line changes.
pub struct Scan {
    pub done: Seq<Span>,
    pub open: Option<OpenSpan>,
}

/// The smaller of two numbers.
pub open spec fn least(a: int, b: int) -> int {
    if a <= b {
        a
    } else {
        b
    }
}

/// Where a region starts whose first change is at `line`: `context` lines
/// earlier, but not before line 1.
pub open spec fn span_start(line: usize, context: usize) -> usize {
    if line - context < 1 {
        1
    } else {
        (line - context) as usize
    }
}

/// Where the window of a region ends whose first trailing context line is
/// at `line`: that line is the first of `context` context lines that the
/// region takes along, so the window ends `context - 1` lines after it, and
/// not after the last line of the text. Without a context budget the window
/// ends right before that line.
pub open spec fn window_end_for(line: usize, context: usize, total: usize) -> usize {
    if line + context < 1 {
        0
    } else {
        least(line + context - 1, total as int) as usize
    }
}

/// A region opened by a change of the given kind at `line`.
pub open spec fn opened(line: usize, kind: LineChangeKind, context: usize) -> OpenSpan {
    OpenSpan { start: span_start(line, context), kinds: seq![kind], window_end: None }
}

/// The scan after one more line change.
///
/// A change opens a region unless one is growing. The first context line
/// after the changes of a growing region fixes the region's window: the
/// region takes `context` context lines along, counted from that line, and
/// does not reach behind the last line of the text. A change inside the
/// window joins the region and reopens it; a change behind the window closes
/// the region at the window's end and opens the next one.
pub open spec fn scan_step(scan: Scan, change: LineChangeView, context: usize, total: usize) -> Scan {
    match scan.open {
        None => if change.change_type is Context {
            scan
        } else {
            Scan {
                done: scan.done,
                open: Some(opened(change.line_number, change.change_type, context)),
            }
        },
        Some(open) => if change.change_type is Context {
            match open.window_end {
                None => Scan {
                    done: scan.done,
                    open: Some(
                        OpenSpan {
                            start: open.start,
                            kinds: open.kinds,
                            window_end: Some(window_end_for(change.line_number, context, total)),
                        },
                    ),
                },
                Some(_) => scan,
            }
        } else {
            match open.window_end {
                Some(end) if change.line_number > end => Scan {
                    done: scan.done.push(Span { start: open.start, end, kinds: open.kinds }),
                    open: Some(opened(change.line_number, change.change_type, context)),
                },
                _ => Scan {
                    done: scan.done,
                    open: Some(
                        OpenSpan {
                            start: open.start,
                            kinds: open.kinds.push(change.change_type),
                            window_end: None,
                        },
                    ),
                },
            }
        },
    }
}

/// The scan after all of `changes`.
pub open spec fn scan_changes(changes: Seq<LineChangeView>, context: usize, total: usize) -> Scan
    decreases changes.len(),
{
    if changes.len() == 0 {
        Scan { done: Seq::empty(), open: None }
    } else {
        scan_step(scan_changes(changes.drop_last(), context, total), changes.last(), context, total)
    }
}

/// The regions of a finished scan: a region that is still growing ends at
/// its window's end, or at the last line of the text where no context line
/// followed its changes.
pub open spec fn scan_spans(scan: Scan, total: usize) -> Seq<Span> {
    match scan.open {
        None => scan.done,
        Some(open) => scan.done.push(
            Span {
                start: open.start,
                end: match open.window_end {
                    Some(end) => end,
                    None => total,
                },
                kinds: open.kinds,
            },
        ),
    }
}

/// The regions that `changes` define in a text of `total` lines.
pub open spec fn region_spans(changes: Seq<LineChangeView>, context: usize, total: usize) -> Seq<
    Span,
> {
    scan_spans(scan_changes(changes, context, total), total)
}

/// `lines` joined by line feeds.
pub open spec fn joined(lines: Seq<Seq<char>>) -> Seq<char>
    decreases lines.len(),
{
    if lines.len() == 0 {
        Seq::empty()
    } else if lines.len() == 1 {
        lines[0]
    } else {
        joined(lines.drop_last()) + seq!['\n'] + lines.last()
    }
}

/// Whether a span can be cut out of a text of `total` lines.
pub open spec fn span_fits(span: Span, total: usize) -> bool {
    1 <= span.start && span.start - 1 <= span.end && span.end <= total
}

/// The region that a span cuts out of the lines of a text.
pub open spec fn region_of_span(span: Span, text_lines: Seq<Seq<char>>) -> CodeRegionView {
    CodeRegionView {
        start_line: span.start,
        end_line: span.end,
        content: joined(text_lines.subrange(span.start - 1, span.end as int)),
        has_changes: span.kinds.len() > 0,
        change_types: span.kinds,
    }
}

/// The regions of a list of spans.
pub open spec fn regions_of_spans(spans: Seq<Span>, text_lines: Seq<Seq<char>>) -> Seq<CodeRegionView> {
    Seq::new(spans.len(), |i: int| region_of_span(spans[i], text_lines))
}

/// The changed regions of a file: its line changes are grouped into spans,
/// and each span is cut out of the new text. One span that does not fit the
/// text fails the whole extraction.
pub open spec fn changed_regions(
    changes: Seq<LineChangeView>,
    new_content: Seq<char>,
    context: usize,
) -> Result<Seq<CodeRegionView>, RegionError> {
    let text_lines = lines(new_content);
    let spans = region_spans(changes, context, text_lines.len() as usize);
    if forall|i: int| 0 <= i < spans.len() ==> span_fits(#[trigger] spans[i], text_lines.len() as usize) {
        Ok(regions_of_spans(spans, text_lines))
    } else {
        Err(RegionError::InvalidLineRange)
    }
}

/// The value of an extraction's outcome.
pub open spec fn regions_view(r: Result<Vec<CodeRegion>, RegionError>) -> Result<
    Seq<CodeRegionView>,
    RegionError,
> {
    match r {
        Ok(v) => Ok(region_views(v@)),
        Err(e) => Err(e),
    }
}

/// A span whose change types are held in memory.
pub struct SpanBuf {
    pub start: usize,
    pub end: usize,
    pub kinds: Vec<LineChangeType>,
}

impl View for SpanBuf {
    type V = Span;

    open spec fn view(&self) -> Span {
        Span { start: self.start, end: self.end, kinds: change_kind_views(self.kinds@) }
    }
}

/// The values of a list of spans.
pub open spec fn span_views(s: Seq<SpanBuf>) -> Seq<Span> {
    Seq::new(s.len(), |i: int| s[i]@)
}

fn start_of_span(line: usize, context: usize) -> (out: usize)
    ensures
        out == span_start(line, context),
{
    let back = line.saturating_sub(context);
    if back < 1 {
        1
    } else {
        back
    }
}

fn end_of_window(line: usize, context: usize, total: usize) -> (out: usize)
    ensures
        out == window_end_for(line, context, total),
{
    match line.checked_add(context) {
        Some(reach) => {
            if reach == 0 {
                0
            } else if reach - 1 <= total {
                reach - 1
            } else {
                total
            }
        },
        None => total,
    }
}

/// Groups line changes into the spans of their regions.
pub fn spans_of_changes(changes: &Vec<LineChange>, context: usize, total: usize) -> (out: Vec<
    SpanBuf,
>)
    ensures
        span_views(out@) == region_spans(line_change_views(changes@), context, total),
{
    let mut done: Vec<SpanBuf> = Vec::new();
    let mut open = false;
    let mut start: usize = 0;
    let mut kinds: Vec<LineChangeType> = Vec::new();
    let mut window_end: Option<usize> = None;
    let ghost all = line_change_views(changes@);
    let mut i: usize = 0;
    assert(span_views(done@) =~= Seq::<Span>::empty());
    while i < changes.len()
        invariant
            i <= changes.len(),
            all == line_change_views(changes@),
            scan_changes(all.take(i as int), context, total) == (Scan {
                done: span_views(done@),
                open: if open {
                    Some(OpenSpan { start, kinds: change_kind_views(kinds@), window_end })
                } else {
                    None
                },
            }),
        decreases changes.len() - i,
    {
        let ghost seen = all.take(i as int + 1);
        assert(seen.drop_last() =~= all.take(i as int));
        assert(seen.last() == changes[i as int]@);
        let ghost old_kinds = change_kind_views(kinds@);
        let ghost old_done = span_views(done@);
        let change = &changes[i];
        let is_context = match change.change_type {
            LineChangeType::Context => true,
            _ => false,
        };
        if is_context {
            if open && window_end.is_none() {
                window_end = Some(end_of_window(change.line_number, context, total));
            }
        } else {
            let beyond = match window_end {
                Some(end) => open && change.line_number > end,
                None => false,
            };
            if !open {
                open = true;
                start = start_of_span(change.line_number, context);
                kinds = Vec::new();
                kinds.push(change.change_type.clone());
                window_end = None;
                assert(change_kind_views(kinds@) =~= seq![change@.change_type]);
            } else if beyond {
                let end = window_end.unwrap();
                let mut closed: Vec<LineChangeType> = Vec::new();
                std::mem::swap(&mut closed, &mut kinds);
                let span = SpanBuf { start, end, kinds: closed };
                done.push(span);
                assert(span_views(done@) =~= old_done.push(span@));
                start = start_of_span(change.line_number, context);
                kinds.push(change.change_type.clone());
                window_end = None;
                assert(change_kind_views(kinds@) =~= seq![change@.change_type]);
            } else {
                kinds.push(change.change_type.clone());
                window_end = None;
                assert(change_kind_views(kinds@) =~= old_kinds.push(change@.change_type));
            }
        }
        i += 1;
    }
    assert(all.take(i as int) =~= all);
    if open {
        let ghost old_done = span_views(done@);
        let end = match window_end {
            Some(end) => end,
            None => total,
        };
        let span = SpanBuf { start, end, kinds };
        done.push(span);
        assert(span_views(done@) =~= old_done.push(span@));
    }
    done
}

/// `text_lines[from..to]` joined by line feeds.
pub fn join_lines(text_lines: &Vec<Vec<char>>, from: usize, to: usize) -> (out: String)
    requires
        from <= to <= text_lines.len(),
    ensures
        out@ == joined(rows(text_lines@).subrange(from as int, to as int)),
{
    let mut chars: Vec<char> = Vec::new();
    let mut i: usize = from;
    let ghost all = rows(text_lines@);
    assert(all.subrange(from as int, from as int) =~= Seq::<Seq<char>>::empty());
    while i < to
        invariant
            from <= i <= to <= text_lines.len(),
            all == rows(text_lines@),
            chars@ == joined(all.subrange(from as int, i as int)),
        decreases to - i,
    {
        let ghost seen = all.subrange(from as int, i as int + 1);
        assert(seen.drop_last() =~= all.subrange(from as int, i as int));
        assert(seen.last() == text_lines[i as int]@);
        let ghost before = chars@;
        if i > from {
            chars.push('\n');
        }
        append_chars(&mut chars, &text_lines[i]);
        proof {
            if i == from {
                assert(before =~= Seq::<char>::empty());
                assert(chars@ =~= text_lines[i as int]@);
                assert(seen.len() == 1);
                assert(seen[0] == text_lines[i as int]@);
            } else {
                assert(chars@ =~= before + seq!['\n'] + text_lines[i as int]@);
            }
        }
        i += 1;
    }
    text_of_all(&chars)
}

/// Handles every kind of change and cuts changed regions out of files.
#[derive(Debug, Clone, Copy)]
pub struct DiffProcessor {
    git_available: bool,
    text_differ: TextDiffer,
}

impl DiffProcessor {
    /// A processor that accepts git changes only where `git_available` is set.
    pub fn new(git_available: bool) -> (out: DiffProcessor)
        ensures
            out.has_git() == git_available,
    {
        DiffProcessor { git_available, text_differ: TextDiffer::new() }
    }

    /// Whether git changes are accepted.
    pub closed spec fn has_git(&self) -> bool {
        self.git_available
    }

    /// Cuts the region of one span out of the lines of a text.
    pub fn create_region(
        &self,
        start_line: usize,
        end_line: usize,
        text_lines: &Vec<Vec<char>>,
        change_types: Vec<LineChangeType>,
    ) -> (out: Result<CodeRegion, RegionError>)
        ensures
            match out {
                Ok(region) => {
                    let span = Span {
                        start: start_line,
                        end: end_line,
                        kinds: change_kind_views(change_types@),
                    };
                    &&& span.end <= text_lines.len()
                    &&& (if span.start == 0 {
                        0
                    } else {
                        span.start - 1
                    }) <= span.end
                    &&& region@.start_line == start_line
                    &&& region@.end_line == end_line
                    &&& region@.content == joined(
                        rows(text_lines@).subrange(
                            if start_line == 0 {
                                0
                            } else {
                                start_line - 1
                            },
                            end_line as int,
                        ),
                    )
                    &&& region@.has_changes == (change_types@.len() > 0)
                    &&& region@.change_types == change_kind_views(change_types@)
                },
                Err(e) => e == RegionError::InvalidLineRange && (end_line > text_lines.len() || (
                if start_line == 0 {
                    0
                } else {
                    start_line - 1
                }) > end_line),
            },
    {
        let from = start_line.saturating_sub(1);
        if end_line > text_lines.len() || from > end_line {
            return Err(RegionError::InvalidLineRange);
        }
        let content = join_lines(text_lines, from, end_line);
        let has_changes = change_types.len() > 0;
        Ok(CodeRegion { start_line, end_line, content, has_changes, change_types })
    }

    /// Groups the line changes of `diff` into regions and cuts each out of
    /// the new text, with `context_lines` lines of context around the
    /// changes.
    pub fn extract_changed_regions(&self, diff: &FileDiff, context_lines: usize) -> (out: Result<
        Vec<CodeRegion>,
        RegionError,
    >)
        ensures
            regions_view(out) == changed_regions(
                line_change_views(diff.changes@),
                diff.new_content@,
                context_lines,
            ),
    {
        let text_lines = split_lines(&chars_of(diff.new_content.as_str()));
        let total = text_lines.len();
        let mut spans = spans_of_changes(&diff.changes, context_lines, total);
        let ghost target = region_spans(line_change_views(diff.changes@), context_lines, total);
        let ghost all_lines = lines(diff.new_content@);
        assert(all_lines.len() == total);
        assert(target == region_spans(
            line_change_views(diff.changes@),
            context_lines,
            all_lines.len() as usize,
        ));
        proof {
            lemma_spans_start_at_one(line_change_views(diff.changes@), context_lines, total);
        }
        let mut regions: Vec<CodeRegion> = Vec::new();
        let n = spans.len();
        let mut i: usize = 0;
        while i < n
            invariant
                i <= n,
                n == spans.len(),
                n == target.len(),
                total == text_lines.len(),
                all_lines == rows(text_lines@),
                regions.len() == i,
                forall|k: int| i <= k < n ==> (#[trigger] spans[k])@ == target[k],
                forall|k: int| 0 <= k < n ==> (#[trigger] target[k]).start >= 1,
                target == region_spans(
                    line_change_views(diff.changes@),
                    context_lines,
                    all_lines.len() as usize,
                ),
                all_lines == lines(diff.new_content@),
                forall|k: int| 0 <= k < i ==> span_fits(#[trigger] target[k], total),
                forall|k: int| 0 <= k < i ==> (#[trigger] regions[k])@ == region_of_span(
                    target[k],
                    all_lines,
                ),
            decreases n - i,
        {
            let start = spans[i].start;
            let end = spans[i].end;
            assert(spans[i as int]@ == target[i as int]);
            let ghost old_spans = spans@;
            let mut taken = SpanBuf { start: 0, end: 0, kinds: Vec::new() };
            spans.set_and_swap(i, &mut taken);
            assert(taken == old_spans[i as int]);
            assert(forall|k: int| i < k < n ==> spans[k] == old_spans[k]);
            match self.create_region(start, end, &text_lines, taken.kinds) {
                Ok(region) => {
                    assert(span_fits(target[i as int], total));
                    regions.push(region);
                },
                Err(e) => {
                    assert(!span_fits(target[i as int], total));
                    return Err(e);
                },
            }
            i += 1;
        }
        assert(region_views(regions@) =~= regions_of_spans(target, all_lines));
        Ok(regions)
    }
}

/// Why a change could not be turned into an event.
#[derive(Debug, Clone, Copy, PartialEq, Eq, Structural)]
pub enum ProcessError {
    /// The change comes from git, and the processor has no git access.
    GitUnavailable,
    /// What was read does not belong to this kind of change.
    InputMismatch,
}

impl ProcessError {
    /// A sentence for logs.
    pub fn message(&self) -> (out: &'static str)
        ensures
            out@ == match *self {
                ProcessError::GitUnavailable => "Git integration not available"@,
                ProcessError::InputMismatch => "Input does not belong to the change source"@,
            },
    {
        match self {
            ProcessError::GitUnavailable => "Git integration not available",
            ProcessError::InputMismatch => "Input does not belong to the change source",
        }
    }
}

/// What has to be read before a change can be turned into an event.
#[derive(Debug, Clone, Copy, PartialEq, Eq, Structural)]
pub enum InputKind {
    /// The current content of the changed file.
    FileContent,
    /// The files that a commit changed against its first parent.
    CommitDeltas,
    /// The files that differ between two commits.
    RangeDeltas,
    /// Nothing.
    Nothing,
}

/// One changed path of a git delta, with the text of its blobs where they
/// could be read.
#[derive(Debug)]
pub struct GitDelta {
    pub path: String,
    pub old_text: Option<String>,
    pub new_text: Option<String>,
}

/// What was read for a change.
#[derive(Debug)]
pub enum SourceInput {
    /// The current content of the changed file, and its earlier content
    /// where the caller kept it.
    File { content: String, cached: Option<String> },
    /// The changed paths of a commit or of a range of commits.
    Deltas(Vec<GitDelta>),
    /// Nothing.
    Nothing,
}

/// The value of a text that may be missing.
pub open spec fn text_view(text: Option<String>) -> Option<Seq<char>> {
    match text {
        Some(t) => Some(t@),
        None => None,
    }
}

/// The diff of one path between two versions of its text. Where the new
/// text is missing the diff has an empty body. Line changes are computed
/// where both texts are known; otherwise the list is empty.
pub open spec fn shaped_diff(path: Seq<char>, old: Option<Seq<char>>, new: Option<Seq<char>>) -> crate::diff::FileDiffView {
    match new {
        None => crate::diff::FileDiffView {
            path,
            old_content: None,
            new_content: Seq::empty(),
            changes: Seq::empty(),
        },
        Some(text) => crate::diff::FileDiffView {
            path,
            old_content: old,
            new_content: text,
            changes: match old {
                Some(before) => crate::differ::line_diff(before, text),
                None => Seq::empty(),
            },
        },
    }
}

/// The diffs of a list of git deltas, one per path and in order.
pub open spec fn delta_diffs(deltas: Seq<GitDelta>) -> Seq<crate::diff::FileDiffView> {
    Seq::new(
        deltas.len(),
        |i: int| shaped_diff(deltas[i].path@, text_view(deltas[i].old_text), text_view(deltas[i].new_text)),
    )
}

/// What has to be read for a change, or why it cannot be processed.
pub open spec fn input_for(has_git: bool, source: ChangeSource) -> Result<InputKind, ProcessError> {
    match source {
        ChangeSource::FileSystem { .. } => Ok(InputKind::FileContent),
        ChangeSource::GitCommit { .. } => if has_git {
            Ok(InputKind::CommitDeltas)
        } else {
            Err(ProcessError::GitUnavailable)
        },
        ChangeSource::GitDiff { .. } => if has_git {
            Ok(InputKind::RangeDeltas)
        } else {
            Err(ProcessError::GitUnavailable)
        },
        ChangeSource::Manual { .. } => Ok(InputKind::Nothing),
    }
}

/// The file diffs of a change for which `input` was read. A change of one
/// file gives one diff, a git change one diff per changed path, and a
/// manual change none.
pub open spec fn diffs_for(has_git: bool, source: ChangeSource, input: SourceInput) -> Result<
    Seq<crate::diff::FileDiffView>,
    ProcessError,
> {
    match input_for(has_git, source) {
        Err(e) => Err(e),
        Ok(InputKind::Nothing) => Ok(Seq::empty()),
        Ok(InputKind::FileContent) => match (source, input) {
            (ChangeSource::FileSystem { path, .. }, SourceInput::File { content, cached }) => Ok(
                seq![shaped_diff(path@, text_view(cached), Some(content@))],
            ),
            _ => Err(ProcessError::InputMismatch),
        },
        Ok(_) => match input {
            SourceInput::Deltas(deltas) => Ok(delta_diffs(deltas@)),
            _ => Err(ProcessError::InputMismatch),
        },
    }
}

impl DiffProcessor {
    /// Tells what has to be read before `source` can be processed.
    pub fn required_input(&self, source: &ChangeSource) -> (out: Result<InputKind, ProcessError>)
        ensures
            out == input_for(self.has_git(), *source),
    {
        match source {
            ChangeSource::FileSystem { .. } => Ok(InputKind::FileContent),
            ChangeSource::GitCommit { .. } => if self.git_available {
                Ok(InputKind::CommitDeltas)
            } else {
                Err(ProcessError::GitUnavailable)
            },
            ChangeSource::GitDiff { .. } => if self.git_available {
                Ok(InputKind::RangeDeltas)
            } else {
                Err(ProcessError::GitUnavailable)
            },
            ChangeSource::Manual { .. } => Ok(InputKind::Nothing),
        }
    }

    /// The diff of one path between two versions of its text.
    pub fn shape_diff(&self, path: &str, old: Option<String>, new: Option<String>) -> (out: FileDiff)
        ensures
            out@ == shaped_diff(path@, text_view(old), text_view(new)),
    {
        match new {
            None => {
                let out = FileDiff {
                    path: path.to_owned(),
                    old_content: None,
                    new_content: String::new(),
                    changes: Vec::new(),
                };
                assert(out@.changes =~= Seq::empty());
                out
            },
            Some(text) => {
                let changes = match &old {
                    Some(before) => self.text_differ.diff_lines(before.as_str(), text.as_str()),
                    None => Vec::new(),
                };
                assert(old is None ==> line_change_views(changes@) =~= Seq::empty());
                FileDiff { path: path.to_owned(), old_content: old, new_content: text, changes }
            },
        }
    }

    /// Turns a change and what was read for it into an event that carries
    /// the file diffs.
    pub fn process_change(
        &self,
        source: ChangeSource,
        input: SourceInput,
        timestamp: std::time::SystemTime,
    ) -> (out: Result<crate::diff::ChangeEvent, ProcessError>)
        ensures
            match out {
                Ok(event) => {
                    &&& event.source == source
                    &&& event.timestamp == timestamp
                    &&& diffs_for(self.has_git(), source, input) == Ok::<
                        Seq<crate::diff::FileDiffView>,
                        ProcessError,
                    >(crate::diff::file_diff_views(event.diffs@))
                },
                Err(e) => diffs_for(self.has_git(), source, input) == Err::<
                    Seq<crate::diff::FileDiffView>,
                    ProcessError,
                >(e),
            },
    {
        let kind = match self.required_input(&source) {
            Ok(kind) => kind,
            Err(e) => {
                return Err(e);
            },
        };
        let diffs = match kind {
            InputKind::Nothing => {
                let diffs: Vec<FileDiff> = Vec::new();
                assert(crate::diff::file_diff_views(diffs@) =~= Seq::empty());
                diffs
            },
            InputKind::FileContent => match (&source, input) {
                (ChangeSource::FileSystem { path, .. }, SourceInput::File { content, cached }) => {
                    let mut diffs: Vec<FileDiff> = Vec::new();
                    let diff = self.shape_diff(path.as_str(), cached, Some(content));
                    diffs.push(diff);
                    assert(crate::diff::file_diff_views(diffs@) =~= seq![diff@]);
                    diffs
                },
                _ => {
                    return Err(ProcessError::InputMismatch);
                },
            },
            _ => match input {
                SourceInput::Deltas(deltas) => {
                    let ghost all = deltas@;
                    let mut deltas = deltas;
                    let mut diffs: Vec<FileDiff> = Vec::new();
                    let n = deltas.len();
                    let mut i: usize = 0;
                    while i < n
                        invariant
                            i <= n,
                            n == deltas.len(),
                            n == all.len(),
                            diffs.len() == i,
                            forall|k: int| i <= k < n ==> deltas[k] == all[k],
                            forall|k: int|
                                0 <= k < i ==> (#[trigger] diffs[k])@ == delta_diffs(all)[k],
                        decreases n - i,
                    {
                        let mut taken = GitDelta {
                            path: String::new(),
                            old_text: None,
                            new_text: None,
                        };
                        let ghost before = deltas@;
                        deltas.set_and_swap(i, &mut taken);
                        assert(taken == all[i as int]);
                        assert(forall|k: int| i < k < n ==> deltas[k] == before[k]);
                        let diff = self.shape_diff(taken.path.as_str(), taken.old_text, taken.new_text);
                        diffs.push(diff);
                        i += 1;
                    }
                    assert(crate::diff::file_diff_views(diffs@) =~= delta_diffs(all));
                    diffs
                },
                _ => {
                    return Err(ProcessError::InputMismatch);
                },
            },
        };
        Ok(crate::diff::ChangeEvent { source, diffs, timestamp })
    }
}

/// Every region starts at line 1 or later.
pub proof fn lemma_spans_start_at_one(changes: Seq<LineChangeView>, context: usize, total: usize)
    ensures
        forall|i: int|
            0 <= i < region_spans(changes, context, total).len() ==> (#[trigger] region_spans(
                changes,
                context,
                total,
            )[i]).start >= 1,
{
    lemma_scan_starts_at_one(changes, context, total);
}

/// During a scan every region, closed or growing, starts at line 1 or later.
pub proof fn lemma_scan_starts_at_one(changes: Seq<LineChangeView>, context: usize, total: usize)
    ensures
        forall|i: int|
            0 <= i < scan_changes(changes, context, total).done.len() ==> (#[trigger] scan_changes(
                changes,
                context,
                total,
            ).done[i]).start >= 1,
        match scan_changes(changes, context, total).open {
            Some(open) => open.start >= 1,
            None => true,
        },
    decreases changes.len(),
{
    if changes.len() > 0 {
        lemma_scan_starts_at_one(changes.drop_last(), context, total);
    }
}

} // verus!
