//! Line-level diffs between two versions of a text.
//!
//! The edit script comes from the `similar` crate. Before it is used, it is
//! replayed against both texts; a script that does not rebuild them is
//! replaced by the script that removes every old line and adds every new one.

use similar::{ChangeTag, TextDiff};
use vstd::prelude::*;
use crate::diff::{FileDiff, LineChange, LineChangeKind, LineChangeType, LineChangeView, line_change_views};
use crate::text::{chars_between, chars_of, rows, same_chars, split_tokens, text_of_all, tokens};

verus! {

/// What an entry of an edit script does with its line.
#[derive(Debug, Clone, Copy, PartialEq, Eq, Structural)]
pub enum DiffTag {
    /// The line is in both texts.
    Equal,
    /// The line is in the old text only.
    Delete,
    /// The line is in the new text only.
    Insert,
}

/// One entry of an edit script: a line token, its terminator included.
#[derive(Debug)]
pub struct RawChange {
    pub tag: DiffTag,
    pub value: String,
}

/// The mathematical value of a [`RawChange`].
pub struct RawChangeView {
    pub tag: DiffTag,
    pub value: Seq<char>,
}

impl View for RawChange {
    type V = RawChangeView;

    open spec fn view(&self) -> RawChangeView {
        RawChangeView { tag: self.tag, value: self.value@ }
    }
}

impl RawChange {
    /// An entry with the given tag and line.
    pub fn tagged(tag: DiffTag, value: &str) -> (out: RawChange)
        ensures
            out@ == (RawChangeView { tag, value: value@ }),
    {
        RawChange { tag, value: value.to_owned() }
    }
}

/// The values of an edit script.
pub open spec fn script_views(s: Seq<RawChange>) -> Seq<RawChangeView> {
    Seq::new(s.len(), |i: int| s[i]@)
}

/// The changes that `similar` reports between the lines of `old` and `new`,
/// in order.
pub uninterp spec fn similar_line_diff(old: Seq<char>, new: Seq<char>) -> Seq<RawChangeView>;

/// Diffs two texts by lines with `similar::TextDiff::from_lines` and lists
/// the result of `iter_all_changes`, each change with its tag and value. The
/// contract only names the outcome: the same texts always give the same
/// script.
#[verifier::external_body]
fn raw_line_diff(old: &str, new: &str) -> (out: Vec<RawChange>)
    ensures
        script_views(out@) == similar_line_diff(old@, new@),
{
    TextDiff::from_lines(old, new).iter_all_changes().map(|change| match change.tag() {
        ChangeTag::Equal => RawChange::tagged(DiffTag::Equal, change.value()),
        ChangeTag::Delete => RawChange::tagged(DiffTag::Delete, change.value()),
        ChangeTag::Insert => RawChange::tagged(DiffTag::Insert, change.value()),
    }).collect()
}

/// Whether an entry with this tag holds a line of the new text (`new_side`)
/// or of the old text.
pub open spec fn on_side(tag: DiffTag, new_side: bool) -> bool {
    match tag {
        DiffTag::Equal => true,
        DiffTag::Delete => !new_side,
        DiffTag::Insert => new_side,
    }
}

/// The lines that a script holds for one of the two texts, in order.
pub open spec fn side(script: Seq<RawChangeView>, new_side: bool) -> Seq<Seq<char>>
    decreases script.len(),
{
    if script.len() == 0 {
        Seq::empty()
    } else if on_side(script.last().tag, new_side) {
        side(script.drop_last(), new_side).push(script.last().value)
    } else {
        side(script.drop_last(), new_side)
    }
}

/// Whether a script rebuilds both texts: its old side is the old text's line
/// tokens and its new side the new text's.
pub open spec fn replays(script: Seq<RawChangeView>, old: Seq<char>, new: Seq<char>) -> bool {
    side(script, false) == tokens(old, true) && side(script, true) == tokens(new, true)
}

/// A script that gives every line the same tag.
pub open spec fn all_tagged(tag: DiffTag, lines: Seq<Seq<char>>) -> Seq<RawChangeView> {
    Seq::new(lines.len(), |i: int| RawChangeView { tag, value: lines[i] })
}

/// The script that removes every old line and then adds every new line.
pub open spec fn replacement(old: Seq<char>, new: Seq<char>) -> Seq<RawChangeView> {
    all_tagged(DiffTag::Delete, tokens(old, true)) + all_tagged(DiffTag::Insert, tokens(new, true))
}

/// The script that is used for a pair of texts: the given one where it
/// rebuilds both texts, the replacement script otherwise.
pub open spec fn checked_script(script: Seq<RawChangeView>, old: Seq<char>, new: Seq<char>) -> Seq<
    RawChangeView,
> {
    if replays(script, old, new) {
        script
    } else {
        replacement(old, new)
    }
}

/// `s` without its trailing line feeds.
pub open spec fn without_line_feeds(s: Seq<char>) -> Seq<char>
    decreases s.len(),
{
    if s.len() > 0 && s.last() == '\n' {
        without_line_feeds(s.drop_last())
    } else {
        s
    }
}

/// The change type that a tag becomes.
pub open spec fn kind_of_tag(tag: DiffTag) -> LineChangeKind {
    match tag {
        DiffTag::Equal => LineChangeKind::Context,
        DiffTag::Delete => LineChangeKind::Removed,
        DiffTag::Insert => LineChangeKind::Added,
    }
}

/// The line changes of a script. Each carries its line without trailing line
/// feeds and the number that the next line of the new text has at that
/// point, counted from 1: equal and inserted lines advance the count,
/// deleted lines do not.
pub open spec fn numbered(script: Seq<RawChangeView>) -> Seq<LineChangeView> {
    Seq::new(
        script.len(),
        |i: int|
            LineChangeView {
                line_number: (side(script.take(i), true).len() + 1) as usize,
                change_type: kind_of_tag(script[i].tag),
                content: without_line_feeds(script[i].value),
            },
    )
}

/// The line changes between `old` and `new`.
pub open spec fn line_diff(old: Seq<char>, new: Seq<char>) -> Seq<LineChangeView> {
    numbered(checked_script(similar_line_diff(old, new), old, new))
}

/// The lines that replaying a diff yields: the contents of its added and
/// context lines, in order.
pub open spec fn replayed(changes: Seq<LineChangeView>) -> Seq<Seq<char>>
    decreases changes.len(),
{
    if changes.len() == 0 {
        Seq::empty()
    } else if changes.last().change_type is Added || changes.last().change_type is Context {
        replayed(changes.drop_last()).push(changes.last().content)
    } else {
        replayed(changes.drop_last())
    }
}

/// The lines that undoing a diff yields: the contents of its removed and
/// context lines, in order.
pub open spec fn undone(changes: Seq<LineChangeView>) -> Seq<Seq<char>>
    decreases changes.len(),
{
    if changes.len() == 0 {
        Seq::empty()
    } else if changes.last().change_type is Removed || changes.last().change_type is Context {
        undone(changes.drop_last()).push(changes.last().content)
    } else {
        undone(changes.drop_last())
    }
}

/// The lines of a text as a diff carries them: its line tokens, each without
/// trailing line feeds.
pub open spec fn diff_lines_of(text: Seq<char>) -> Seq<Seq<char>> {
    tokens(text, true).map_values(|t: Seq<char>| without_line_feeds(t))
}

/// The side of two scripts in a row is their sides in a row.
pub proof fn lemma_side_concat(a: Seq<RawChangeView>, b: Seq<RawChangeView>, new_side: bool)
    ensures
        side(a + b, new_side) == side(a, new_side) + side(b, new_side),
    decreases b.len(),
{
    if b.len() == 0 {
        assert(a + b =~= a);
        assert(side(a, new_side) + side(b, new_side) =~= side(a, new_side));
    } else {
        assert((a + b).drop_last() =~= a + b.drop_last());
        assert((a + b).last() == b.last());
        lemma_side_concat(a, b.drop_last(), new_side);
        if on_side(b.last().tag, new_side) {
            assert(side(a, new_side) + side(b.drop_last(), new_side).push(b.last().value) =~= (side(
                a,
                new_side,
            ) + side(b.drop_last(), new_side)).push(b.last().value));
        }
    }
}

/// A script with one tag holds all of its lines on the sides of that tag and
/// none on the other.
pub proof fn lemma_side_all_tagged(tag: DiffTag, lines: Seq<Seq<char>>, new_side: bool)
    ensures
        side(all_tagged(tag, lines), new_side) == if on_side(tag, new_side) {
            lines
        } else {
            Seq::<Seq<char>>::empty()
        },
    decreases lines.len(),
{
    let script = all_tagged(tag, lines);
    if lines.len() == 0 {
        assert(lines =~= Seq::<Seq<char>>::empty());
    } else {
        assert(script.drop_last() =~= all_tagged(tag, lines.drop_last()));
        lemma_side_all_tagged(tag, lines.drop_last(), new_side);
        if on_side(tag, new_side) {
            assert(lines.drop_last().push(lines.last()) =~= lines);
        }
    }
}

/// The replacement script rebuilds both texts.
pub proof fn lemma_replacement_replays(old: Seq<char>, new: Seq<char>)
    ensures
        replays(replacement(old, new), old, new),
{
    let removed = all_tagged(DiffTag::Delete, tokens(old, true));
    let added = all_tagged(DiffTag::Insert, tokens(new, true));
    lemma_side_concat(removed, added, false);
    lemma_side_concat(removed, added, true);
    lemma_side_all_tagged(DiffTag::Delete, tokens(old, true), false);
    lemma_side_all_tagged(DiffTag::Delete, tokens(old, true), true);
    lemma_side_all_tagged(DiffTag::Insert, tokens(new, true), false);
    lemma_side_all_tagged(DiffTag::Insert, tokens(new, true), true);
    assert(side(removed, false) + side(added, false) =~= tokens(old, true));
    assert(side(removed, true) + side(added, true) =~= tokens(new, true));
}

/// Replaying the line changes of a script gives the script's new side, and
/// undoing them its old side, each line without trailing line feeds.
pub proof fn lemma_numbered_sides(script: Seq<RawChangeView>)
    ensures
        replayed(numbered(script)) == side(script, true).map_values(
            |t: Seq<char>| without_line_feeds(t),
        ),
        undone(numbered(script)) == side(script, false).map_values(
            |t: Seq<char>| without_line_feeds(t),
        ),
    decreases script.len(),
{
    let strip = |t: Seq<char>| without_line_feeds(t);
    if script.len() == 0 {
        assert(side(script, true).map_values(strip) =~= Seq::<Seq<char>>::empty());
        assert(side(script, false).map_values(strip) =~= Seq::<Seq<char>>::empty());
    } else {
        let shorter = script.drop_last();
        lemma_numbered_sides(shorter);
        assert(numbered(script).drop_last() =~= numbered(shorter)) by {
            assert forall|i: int| 0 <= i < shorter.len() implies numbered(script)[i] == numbered(
                shorter,
            )[i] by {
                assert(script.take(i) =~= shorter.take(i));
            }
        }
        let last = script.last();
        assert(numbered(script).last().content == without_line_feeds(last.value));
        assert(numbered(script).last().change_type == kind_of_tag(last.tag));
        if on_side(last.tag, true) {
            assert(side(script, true).map_values(strip) =~= side(shorter, true).map_values(
                strip,
            ).push(without_line_feeds(last.value)));
        }
        if on_side(last.tag, false) {
            assert(side(script, false).map_values(strip) =~= side(shorter, false).map_values(
                strip,
            ).push(without_line_feeds(last.value)));
        }
    }
}

/// Replaying any diff of this library rebuilds the lines of the new text:
/// the contents of the added and context lines, in order, are the lines of
/// `new`. Undoing it rebuilds the lines of `old` in the same way.
pub proof fn lemma_diff_rebuilds_texts(old: Seq<char>, new: Seq<char>)
    ensures
        replayed(line_diff(old, new)) == diff_lines_of(new),
        undone(line_diff(old, new)) == diff_lines_of(old),
{
    let script = checked_script(similar_line_diff(old, new), old, new);
    lemma_replacement_replays(old, new);
    assert(replays(script, old, new));
    lemma_numbered_sides(script);
}

/// The script that is used for a pair of texts rebuilds both exactly: the
/// lines of its new side, one after the other with their terminators, are
/// `new`, and those of its old side are `old`.
pub proof fn lemma_script_rebuilds_texts(script: Seq<RawChangeView>, old: Seq<char>, new: Seq<char>)
    ensures
        side(checked_script(script, old, new), true).flatten() == new,
        side(checked_script(script, old, new), false).flatten() == old,
{
    lemma_replacement_replays(old, new);
    crate::text::lemma_tokens_rebuild_text(old, true);
    crate::text::lemma_tokens_rebuild_text(new, true);
}

/// Whether an entry with this tag holds a line of the given side.
fn tag_on_side(tag: DiffTag, new_side: bool) -> (out: bool)
    ensures
        out == on_side(tag, new_side),
{
    match tag {
        DiffTag::Equal => true,
        DiffTag::Delete => !new_side,
        DiffTag::Insert => new_side,
    }
}

/// The lines that a script holds for one of the two texts.
pub fn side_of_script(script: &Vec<RawChange>, new_side: bool) -> (out: Vec<Vec<char>>)
    ensures
        rows(out@) == side(script_views(script@), new_side),
{
    let mut out: Vec<Vec<char>> = Vec::new();
    let mut i: usize = 0;
    while i < script.len()
        invariant
            i <= script.len(),
            rows(out@) == side(script_views(script@).take(i as int), new_side),
        decreases script.len() - i,
    {
        let ghost before = rows(out@);
        let ghost seen = script_views(script@).take(i as int + 1);
        assert(seen.drop_last() =~= script_views(script@).take(i as int));
        assert(seen.last() == script[i as int]@);
        if tag_on_side(script[i].tag, new_side) {
            let value = chars_of(script[i].value.as_str());
            out.push(value);
            assert(rows(out@) =~= before.push(value@));
        }
        i += 1;
    }
    assert(script_views(script@).take(i as int) =~= script_views(script@));
    out
}

/// Whether two lists of lines are equal.
pub fn same_rows(a: &Vec<Vec<char>>, b: &Vec<Vec<char>>) -> (out: bool)
    ensures
        out == (rows(a@) == rows(b@)),
{
    if a.len() != b.len() {
        assert(rows(a@).len() != rows(b@).len());
        return false;
    }
    let mut i: usize = 0;
    while i < a.len()
        invariant
            i <= a.len(),
            a.len() == b.len(),
            forall|k: int| 0 <= k < i ==> a[k]@ == b[k]@,
        decreases a.len() - i,
    {
        if !same_chars(&a[i], &b[i]) {
            assert(rows(a@)[i as int] != rows(b@)[i as int]);
            return false;
        }
        i += 1;
    }
    assert(rows(a@) =~= rows(b@));
    true
}

/// Appends one entry per line to `script`, all with the same tag.
fn push_all_tagged(script: &mut Vec<RawChange>, tag: DiffTag, lines: &Vec<Vec<char>>)
    ensures
        script_views(final(script)@) == script_views(old(script)@) + all_tagged(tag, rows(lines@)),
{
    let mut i: usize = 0;
    assert(script_views(script@) =~= script_views(old(script)@) + all_tagged(
        tag,
        rows(lines@).take(0),
    ));
    while i < lines.len()
        invariant
            i <= lines.len(),
            script.len() == old(script).len() + i,
            script_views(script@) == script_views(old(script)@) + all_tagged(
                tag,
                rows(lines@).take(i as int),
            ),
        decreases lines.len() - i,
    {
        let ghost before = script_views(script@);
        let value = text_of_all(&lines[i]);
        script.push(RawChange { tag, value });
        i += 1;
        proof {
            let target = script_views(old(script)@) + all_tagged(tag, rows(lines@).take(i as int));
            assert(script_views(script@).len() == target.len());
            assert forall|k: int| 0 <= k < target.len() implies script_views(script@)[k]
                == target[k] by {
                if k < before.len() {
                    assert(script_views(script@)[k] == before[k]);
                    if k >= old(script)@.len() {
                        assert(rows(lines@).take(i as int - 1)[k - old(script)@.len()] == rows(
                            lines@,
                        ).take(i as int)[k - old(script)@.len()]);
                    }
                }
            }
            assert(script_views(script@) =~= target);
        }
    }
    assert(rows(lines@).take(i as int) =~= rows(lines@));
}

/// `value` without its trailing line feeds.
pub fn strip_line_feeds(value: &str) -> (out: String)
    ensures
        out@ == without_line_feeds(value@),
{
    let chars = chars_of(value);
    let mut end: usize = chars.len();
    assert(chars@.subrange(0, end as int) =~= chars@);
    while end > 0 && chars[end - 1] == '\n'
        invariant
            end <= chars.len(),
            without_line_feeds(chars@) == without_line_feeds(chars@.subrange(0, end as int)),
        decreases end,
    {
        assert(chars@.subrange(0, end as int).drop_last() =~= chars@.subrange(0, end as int - 1));
        end -= 1;
    }
    let out = chars_between(&chars, 0, end);
    text_of_all(&out)
}

/// The line changes of a script.
pub fn number_changes(script: &Vec<RawChange>) -> (out: Vec<LineChange>)
    ensures
        line_change_views(out@) == numbered(script_views(script@)),
{
    let mut out: Vec<LineChange> = Vec::new();
    let mut seen_new: usize = 0;
    let mut i: usize = 0;
    while i < script.len()
        invariant
            i <= script.len(),
            out.len() == i,
            seen_new <= i,
            seen_new == side(script_views(script@).take(i as int), true).len(),
            forall|k: int| 0 <= k < i ==> (#[trigger] out[k])@ == numbered(script_views(script@))[k],
        decreases script.len() - i,
    {
        let ghost seen = script_views(script@).take(i as int + 1);
        assert(seen.drop_last() =~= script_views(script@).take(i as int));
        assert(seen.last() == script[i as int]@);
        let entry = &script[i];
        let content = strip_line_feeds(entry.value.as_str());
        let line_number = seen_new + 1;
        let change_type = match entry.tag {
            DiffTag::Equal => LineChangeType::Context,
            DiffTag::Delete => LineChangeType::Removed,
            DiffTag::Insert => LineChangeType::Added,
        };
        out.push(LineChange { line_number, change_type, content });
        if tag_on_side(entry.tag, true) {
            seen_new += 1;
        }
        i += 1;
    }
    assert(line_change_views(out@) =~= numbered(script_views(script@)));
    out
}

/// How many changes of each type a diff holds.
#[derive(Debug, PartialEq, Eq)]
pub struct ChangeSummary {
    pub added: usize,
    pub removed: usize,
    pub modified: usize,
    pub context: usize,
}

impl Default for ChangeSummary {
    fn default() -> (out: ChangeSummary)
        ensures
            out == (ChangeSummary { added: 0, removed: 0, modified: 0, context: 0 }),
    {
        ChangeSummary { added: 0, removed: 0, modified: 0, context: 0 }
    }
}

/// How many of the changes are added lines.
pub open spec fn count_added(changes: Seq<LineChangeView>) -> nat {
    changes.filter(|c: LineChangeView| c.change_type is Added).len()
}

/// How many of the changes are removed lines.
pub open spec fn count_removed(changes: Seq<LineChangeView>) -> nat {
    changes.filter(|c: LineChangeView| c.change_type is Removed).len()
}

/// How many of the changes are modified lines.
pub open spec fn count_modified(changes: Seq<LineChangeView>) -> nat {
    changes.filter(|c: LineChangeView| c.change_type is Modified).len()
}

/// How many of the changes are context lines.
pub open spec fn count_context(changes: Seq<LineChangeView>) -> nat {
    changes.filter(|c: LineChangeView| c.change_type is Context).len()
}

/// The line differ.
#[derive(Debug, Clone, Copy)]
pub struct TextDiffer;

impl TextDiffer {
    pub fn new() -> (out: TextDiffer) {
        TextDiffer
    }

    /// Turns an edit script for `old` and `new` into line changes. The
    /// script is used as it stands where it rebuilds both texts; otherwise
    /// every old line is removed and every new line added.
    pub fn changes_from_script(&self, script: Vec<RawChange>, old: &str, new: &str) -> (out: Vec<
        LineChange,
    >)
        ensures
            line_change_views(out@) == numbered(
                checked_script(script_views(script@), old@, new@),
            ),
    {
        let old_tokens = split_tokens(&chars_of(old), true);
        let new_tokens = split_tokens(&chars_of(new), true);
        let faithful = same_rows(&side_of_script(&script, false), &old_tokens) && same_rows(
            &side_of_script(&script, true),
            &new_tokens,
        );
        if faithful {
            number_changes(&script)
        } else {
            let mut fallback: Vec<RawChange> = Vec::new();
            push_all_tagged(&mut fallback, DiffTag::Delete, &old_tokens);
            push_all_tagged(&mut fallback, DiffTag::Insert, &new_tokens);
            assert(script_views(fallback@) =~= replacement(old@, new@));
            number_changes(&fallback)
        }
    }

    /// The line changes that lead from `old_content` to `new_content`.
    pub fn diff_lines(&self, old_content: &str, new_content: &str) -> (out: Vec<LineChange>)
        ensures
            line_change_views(out@) == line_diff(old_content@, new_content@),
            replayed(line_change_views(out@)) == diff_lines_of(new_content@),
            undone(line_change_views(out@)) == diff_lines_of(old_content@),
    {
        proof {
            lemma_diff_rebuilds_texts(old_content@, new_content@);
        }
        let script = raw_line_diff(old_content, new_content);
        self.changes_from_script(script, old_content, new_content)
    }

    /// The diff of one file between two versions of its text.
    pub fn diff_files(&self, old_path: &str, old_content: &str, new_content: &str) -> (out: FileDiff)
        ensures
            out.path@ == old_path@,
            out.old_content matches Some(text) && text@ == old_content@,
            out.new_content@ == new_content@,
            line_change_views(out.changes@) == line_diff(old_content@, new_content@),
    {
        let changes = self.diff_lines(old_content, new_content);
        FileDiff {
            path: old_path.to_owned(),
            old_content: Some(old_content.to_owned()),
            new_content: new_content.to_owned(),
            changes,
        }
    }

    /// Counts the changes of each type.
    pub fn get_change_summary(&self, changes: &[LineChange]) -> (out: ChangeSummary)
        ensures
            out.added == count_added(line_change_views(changes@)),
            out.removed == count_removed(line_change_views(changes@)),
            out.modified == count_modified(line_change_views(changes@)),
            out.context == count_context(line_change_views(changes@)),
    {
        let mut summary = ChangeSummary::default();
        let mut i: usize = 0;
        let ghost all = line_change_views(changes@);
        while i < changes.len()
            invariant
                i <= changes.len(),
                all == line_change_views(changes@),
                summary.added == count_added(all.take(i as int)),
                summary.removed == count_removed(all.take(i as int)),
                summary.modified == count_modified(all.take(i as int)),
                summary.context == count_context(all.take(i as int)),
                summary.added + summary.removed + summary.modified + summary.context == i,
            decreases changes.len() - i,
        {
            let ghost seen = all.take(i as int + 1);
            assert(seen.drop_last() =~= all.take(i as int));
            assert(seen.last() == changes[i as int]@);
            reveal(Seq::filter);
            match changes[i].change_type {
                LineChangeType::Added => {
                    summary.added += 1;
                },
                LineChangeType::Removed => {
                    summary.removed += 1;
                },
                LineChangeType::Modified { .. } => {
                    summary.modified += 1;
                },
                LineChangeType::Context => {
                    summary.context += 1;
                },
            }
            i += 1;
        }
        assert(all.take(i as int) =~= all);
        summary
    }
}

} // verus!
