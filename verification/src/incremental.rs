//! The reconciler: it keeps the endpoint inventory current as files change.

use sha2::{Digest, Sha256};
use std::time::SystemTime;
use vstd::prelude::*;
use crate::changes::{
    ChangeType, EndpointChanges, EndpointChangesView, compare_endpoints, detect_change_type,
    endpoints_equal,
};
use crate::diff::{
    ChangeEvent, CodeRegion, CodeRegionView, FileDiff, FileDiffView, current_time,
    file_diff_views, region_views,
};
use crate::endpoint::{Endpoint, EndpointView, endpoint_views};
use crate::extract::{ExtractError, LanguageParser, detect_language, extraction_view, language_of};
use crate::languages::javascript::{JavaScriptParser, javascript_endpoints};
use crate::languages::php::{PhpParser, ROUTE_PATTERN, pattern_accepted, php_endpoints};
use crate::languages::python::{PythonParser, python_endpoints};
use crate::state::{EndpointState, EndpointStateView, endpoints_in_file, tracked_views};
use crate::text::same_text;

verus! {

/// The SHA-256 digest of a text's UTF-8 bytes, in lower-case hexadecimal.
pub uninterp spec fn sha256_hex(content: Seq<char>) -> Seq<char>;

/// Hashes the bytes of `content` with `sha2::Sha256` and formats the digest
/// in lower-case hexadecimal. The contract only names the outcome: the same
/// text always gives the same digest.
#[verifier::external_body]
fn content_digest(content: &str) -> (out: String)
    ensures
        out@ == sha256_hex(content@),
{
    let mut hasher = Sha256::new();
    hasher.update(content.as_bytes());
    format!("{:x}", hasher.finalize())
}

/// What the extractor for the language of `path` finds in `content`; `None`
/// where no extractor belongs to the path. PHP has an extractor only where
/// it could be set up.
pub open spec fn extraction(has_php: bool, path: Seq<char>, content: Seq<char>) -> Option<
    Result<Seq<EndpointView>, ExtractError>,
> {
    match language_of(path) {
        Some(language) => if language == "javascript"@ || language == "typescript"@ {
            Some(javascript_endpoints(content))
        } else if language == "python"@ {
            Some(python_endpoints(content))
        } else if language == "php"@ && has_php {
            Some(Ok(php_endpoints(content)))
        } else {
            None
        },
        None => None,
    }
}

/// The inventory and the delta after a pass over one file diff. A file
/// without an extractor, or one whose extraction fails, changes nothing
/// and reports nothing.
pub open spec fn file_pass(state: EndpointStateView, has_php: bool, diff: FileDiffView) -> (
    EndpointStateView,
    EndpointChangesView,
) {
    match extraction(has_php, diff.path, diff.new_content) {
        Some(Ok(found)) => (
            state.after_file(diff.path, found, sha256_hex(diff.new_content)),
            state.delta_for_file(diff.path, found),
        ),
        _ => (state, EndpointChangesView::empty()),
    }
}

/// The inventory and the merged delta after passes over file diffs, one
/// after the other.
pub open spec fn batch_pass(state: EndpointStateView, has_php: bool, diffs: Seq<FileDiffView>) -> (
    EndpointStateView,
    EndpointChangesView,
)
    decreases diffs.len(),
{
    if diffs.len() == 0 {
        (state, EndpointChangesView::empty())
    } else {
        let before = batch_pass(state, has_php, diffs.drop_last());
        let last = file_pass(before.0, has_php, diffs.last());
        (last.0, before.1.merged(last.1))
    }
}

/// The number that a line of a region has in the whole file.
pub open spec fn rebased_line(line: usize, start_line: usize) -> usize {
    let shift = if start_line == 0 {
        0
    } else {
        start_line - 1
    };
    if line + shift > usize::MAX {
        usize::MAX
    } else {
        (line + shift) as usize
    }
}

/// An endpoint found in a region, with its line counted in the whole file.
pub open spec fn rebased(e: EndpointView, start_line: usize) -> EndpointView {
    EndpointView {
        method: e.method,
        path: e.path,
        handler: e.handler,
        line: rebased_line(e.line, start_line),
        column: e.column,
        documentation: e.documentation,
    }
}

/// The endpoints found in one region, with their lines counted in the
/// whole file.
pub open spec fn rebased_all(found: Seq<EndpointView>, start_line: usize) -> Seq<EndpointView> {
    Seq::new(found.len(), |i: int| rebased(found[i], start_line))
}

/// The endpoints of the first `n` regions of a file. Regions without
/// changes are passed over; the first extraction that fails ends the work.
pub open spec fn region_endpoints(
    has_php: bool,
    path: Seq<char>,
    regions: Seq<CodeRegionView>,
    n: int,
) -> Result<Seq<EndpointView>, ExtractError>
    decreases n,
{
    if n <= 0 {
        Ok(Seq::empty())
    } else {
        match region_endpoints(has_php, path, regions, n - 1) {
            Err(e) => Err(e),
            Ok(before) => {
                let region = regions[n - 1];
                if region.has_changes {
                    match extraction(has_php, path, region.content) {
                        Some(Ok(found)) => Ok(before + rebased_all(found, region.start_line)),
                        Some(Err(e)) => Err(e),
                        None => Ok(before),
                    }
                } else {
                    Ok(before)
                }
            },
        }
    }
}

/// The value of an extraction that may not have taken place.
pub open spec fn attempt_view(r: Option<Result<Vec<Endpoint>, ExtractError>>) -> Option<
    Result<Seq<EndpointView>, ExtractError>,
> {
    match r {
        Some(found) => Some(extraction_view(found)),
        None => None,
    }
}

/// Keeps an endpoint inventory and brings it up to date from change events.
#[derive(Debug)]
pub struct IncrementalParser {
    state: EndpointState,
    php: Option<PhpParser>,
}

impl IncrementalParser {
    /// The inventory.
    pub closed spec fn state(&self) -> EndpointStateView {
        self.state@
    }

    /// Whether the PHP extractor could be set up.
    pub closed spec fn has_php(&self) -> bool {
        self.php is Some
    }

    /// A reconciler with an empty inventory. It has a PHP extractor exactly
    /// where the regex engine accepts the route pattern.
    pub fn new() -> (out: IncrementalParser)
        ensures
            out.state().entries.len() == 0,
            out.state().file_hashes.len() == 0,
            out.state().wf(),
            out.has_php() == pattern_accepted(ROUTE_PATTERN@),
    {
        IncrementalParser::with_state(EndpointState::new(current_time()))
    }

    /// A reconciler that goes on from an earlier inventory. It has a PHP
    /// extractor exactly where the regex engine accepts the route pattern.
    pub fn with_state(state: EndpointState) -> (out: IncrementalParser)
        ensures
            out.state() == state@,
            out.has_php() == pattern_accepted(ROUTE_PATTERN@),
    {
        let php = match PhpParser::new() {
            Ok(parser) => Some(parser),
            Err(_) => None,
        };
        IncrementalParser { state, php }
    }

    /// How many languages have an extractor: JavaScript, TypeScript and
    /// Python, and PHP where its extractor could be set up.
    pub fn language_count(&self) -> (out: usize)
        ensures
            out == if self.has_php() {
                4int
            } else {
                3int
            },
    {
        if self.php.is_some() {
            4
        } else {
            3
        }
    }

    /// Runs the extractor for the language of `path` on `content`.
    pub fn extract(&self, path: &str, content: &str) -> (out: Option<
        Result<Vec<Endpoint>, ExtractError>,
    >)
        ensures
            attempt_view(out) == extraction(self.has_php(), path@, content@),
    {
        match detect_language(path) {
            Some(language) => {
                if same_text(language, "javascript") || same_text(language, "typescript") {
                    Some(JavaScriptParser.parse(content))
                } else if same_text(language, "python") {
                    Some(PythonParser.parse(content))
                } else if same_text(language, "php") {
                    match &self.php {
                        Some(parser) => Some(parser.parse(content)),
                        None => None,
                    }
                } else {
                    None
                }
            },
            None => None,
        }
    }

    /// Brings the inventory up to date from a change event and reports what
    /// changed, file by file. The time of the update is read from the
    /// clock.
    pub fn parse_changes(&mut self, change_event: ChangeEvent) -> (out: EndpointChanges)
        ensures
            final(self).has_php() == old(self).has_php(),
            out@ == batch_pass(
                old(self).state(),
                old(self).has_php(),
                file_diff_views(change_event.diffs@),
            ).1,
            final(self).state().entries == batch_pass(
                old(self).state(),
                old(self).has_php(),
                file_diff_views(change_event.diffs@),
            ).0.entries,
            final(self).state().file_hashes == batch_pass(
                old(self).state(),
                old(self).has_php(),
                file_diff_views(change_event.diffs@),
            ).0.file_hashes,
            old(self).state().wf() ==> final(self).state().wf(),
    {
        let now = current_time();
        self.apply_changes(&change_event.diffs, now)
    }

    /// Brings the inventory up to date from file diffs, one after the
    /// other, notes `now` as the time of the update and reports the merged
    /// delta.
    pub fn apply_changes(&mut self, diffs: &Vec<FileDiff>, now: SystemTime) -> (out: EndpointChanges)
        ensures
            final(self).has_php() == old(self).has_php(),
            out@ == batch_pass(old(self).state(), old(self).has_php(), file_diff_views(diffs@)).1,
            final(self).state().entries == batch_pass(
                old(self).state(),
                old(self).has_php(),
                file_diff_views(diffs@),
            ).0.entries,
            final(self).state().file_hashes == batch_pass(
                old(self).state(),
                old(self).has_php(),
                file_diff_views(diffs@),
            ).0.file_hashes,
            final(self).state().last_updated == now,
            old(self).state().wf() ==> final(self).state().wf(),
    {
        let ghost start = self.state();
        let ghost php = self.has_php();
        let ghost all = file_diff_views(diffs@);
        let mut changes = EndpointChanges::new();
        let mut i: usize = 0;
        while i < diffs.len()
            invariant
                i <= diffs.len(),
                all == file_diff_views(diffs@),
                self.has_php() == php,
                (self.state(), changes@) == batch_pass(start, php, all.take(i as int)),
                start.wf() ==> self.state().wf(),
            decreases diffs.len() - i,
        {
            let ghost seen = all.take(i as int + 1);
            assert(seen.drop_last() =~= all.take(i as int));
            assert(seen.last() == diffs[i as int]@);
            let delta = self.parse_file_diff(&diffs[i]);
            changes.merge(delta);
            i += 1;
        }
        assert(all.take(i as int) =~= all);
        self.state.touch(now);
        changes
    }

    /// One pass over a file diff: extracts the endpoints of the new
    /// content, reports the delta against what the inventory attributed to
    /// the file, and brings the inventory up to date.
    pub fn parse_file_diff(&mut self, file_diff: &FileDiff) -> (out: EndpointChanges)
        ensures
            final(self).has_php() == old(self).has_php(),
            (final(self).state(), out@) == file_pass(
                old(self).state(),
                old(self).has_php(),
                file_diff@,
            ),
            old(self).state().wf() ==> final(self).state().wf(),
    {
        let path = file_diff.path.as_str();
        let content = file_diff.new_content.as_str();
        match self.extract(path, content) {
            Some(Ok(found)) => {
                let hash = self.calculate_content_hash(content);
                self.state.reconcile_file(path, found, hash)
            },
            _ => EndpointChanges::new(),
        }
    }

    /// Extracts endpoints from the changed regions of a file only, and
    /// counts their lines in the whole file.
    pub fn parse_regions(&self, regions: Vec<CodeRegion>, path: &str) -> (out: Result<
        Vec<Endpoint>,
        ExtractError,
    >)
        ensures
            extraction_view(out) == region_endpoints(
                self.has_php(),
                path@,
                region_views(regions@),
                regions@.len() as int,
            ),
    {
        let ghost all = region_views(regions@);
        let mut found: Vec<Endpoint> = Vec::new();
        let mut i: usize = 0;
        assert(endpoint_views(found@) =~= Seq::<EndpointView>::empty());
        while i < regions.len()
            invariant
                i <= regions.len(),
                all == region_views(regions@),
                region_endpoints(self.has_php(), path@, all, i as int) == Ok::<
                    Seq<EndpointView>,
                    ExtractError,
                >(endpoint_views(found@)),
            decreases regions.len() - i,
        {
            let region = &regions[i];
            assert(all[i as int] == region@);
            if region.has_changes {
                match self.extract(path, region.content.as_str()) {
                    Some(Ok(endpoints)) => {
                        let ghost before = endpoint_views(found@);
                        let ghost fresh = endpoint_views(endpoints@);
                        let shift = region.start_line.saturating_sub(1);
                        let mut k: usize = 0;
                        assert(rebased_all(fresh, region.start_line).take(0) =~= Seq::<
                            EndpointView,
                        >::empty());
                        while k < endpoints.len()
                            invariant
                                k <= endpoints.len(),
                                fresh == endpoint_views(endpoints@),
                                shift == if region.start_line == 0 {
                                    0
                                } else {
                                    region.start_line - 1
                                },
                                endpoint_views(found@) == before + rebased_all(
                                    fresh,
                                    region.start_line,
                                ).take(k as int),
                            decreases endpoints.len() - k,
                        {
                            let ghost so_far = endpoint_views(found@);
                            let e = &endpoints[k];
                            let moved = Endpoint {
                                method: e.method,
                                path: e.path.clone(),
                                handler: e.handler.clone(),
                                line: e.line.saturating_add(shift),
                                column: e.column,
                                documentation: match &e.documentation {
                                    Some(d) => Some(d.clone()),
                                    None => None,
                                },
                            };
                            assert(moved@ == rebased(fresh[k as int], region.start_line));
                            found.push(moved);
                            k += 1;
                            assert(endpoint_views(found@) =~= so_far.push(moved@));
                            assert(rebased_all(fresh, region.start_line).take(k as int)
                                =~= rebased_all(fresh, region.start_line).take(k as int - 1).push(
                                moved@,
                            ));
                        }
                        assert(rebased_all(fresh, region.start_line).take(k as int) =~= rebased_all(
                            fresh,
                            region.start_line,
                        ));
                    },
                    Some(Err(e)) => {
                        proof {
                            lemma_region_failure_stays(
                                self.has_php(),
                                path@,
                                all,
                                i as int + 1,
                                regions@.len() as int,
                            );
                        }
                        return Err(e);
                    },
                    None => {},
                }
            }
            i += 1;
        }
        Ok(found)
    }

    /// The inventory, for saving.
    pub fn get_state(&self) -> (out: &EndpointState)
        ensures
            out@ == self.state(),
    {
        &self.state
    }

    /// All endpoints of the inventory, in the order in which it holds them.
    pub fn get_all_endpoints(&self) -> (out: Vec<&Endpoint>)
        ensures
            out@.len() == self.state().entries.len(),
            forall|i: int| 0 <= i < out@.len() ==> (#[trigger] out@[i])@ == self.state().entries[i].endpoint,
    {
        let entries = self.state.entries();
        let mut out: Vec<&Endpoint> = Vec::new();
        let mut i: usize = 0;
        while i < entries.len()
            invariant
                i <= entries.len(),
                out@.len() == i,
                tracked_views(entries@) == self.state().entries,
                forall|k: int| 0 <= k < i ==> (#[trigger] out@[k])@ == entries[k]@.endpoint,
            decreases entries.len() - i,
        {
            out.push(&entries[i].endpoint);
            i += 1;
        }
        assert forall|k: int| 0 <= k < out@.len() implies (#[trigger] out@[k])@
            == self.state().entries[k].endpoint by {
            assert(tracked_views(entries@)[k] == entries[k]@);
        }
        out
    }

    /// The endpoints that the inventory attributes to the file `path`.
    pub fn get_endpoints_for_file(&self, path: &str) -> (out: Vec<Endpoint>)
        ensures
            endpoint_views(out@) == endpoints_in_file(self.state().entries, path@),
    {
        self.state.endpoints_for_file(path)
    }

    /// Holds `new_endpoints` against `old_endpoints` and lists what was
    /// added, modified, removed and left unchanged.
    pub fn compare_endpoints(&self, old_endpoints: Vec<Endpoint>, new_endpoints: Vec<Endpoint>) -> (out:
        EndpointChanges)
        ensures
            out@ == crate::changes::delta(
                endpoint_views(old_endpoints@),
                endpoint_views(new_endpoints@),
            ),
    {
        compare_endpoints(&old_endpoints, &new_endpoints)
    }

    /// The textual identity of an endpoint, `method:path:line`.
    pub fn generate_endpoint_id(&self, endpoint: &Endpoint) -> (out: String)
        ensures
            out@ == endpoint@.id(),
    {
        endpoint.id()
    }

    /// Whether two endpoints agree in everything but the documentation.
    pub fn endpoints_equal(&self, old: &Endpoint, new: &Endpoint) -> (out: bool)
        ensures
            out == old@.same_as(new@),
    {
        endpoints_equal(old, new)
    }

    /// Classifies a modification.
    pub fn detect_change_type(&self, old: &Endpoint, new: &Endpoint) -> (out: ChangeType)
        ensures
            out == crate::changes::change_type_of(old@, new@),
    {
        detect_change_type(old, new)
    }

    /// The SHA-256 digest of `content` in lower-case hexadecimal.
    pub fn calculate_content_hash(&self, content: &str) -> (out: String)
        ensures
            out@ == sha256_hex(content@),
    {
        content_digest(content)
    }
}

impl Default for IncrementalParser {
    fn default() -> (out: IncrementalParser)
        ensures
            out.state().entries.len() == 0,
            out.state().file_hashes.len() == 0,
            out.state().wf(),
            out.has_php() == pattern_accepted(ROUTE_PATTERN@),
    {
        IncrementalParser::new()
    }
}

/// Once the extraction of a region has failed, the failure is the result
/// for any number of further regions.
pub proof fn lemma_region_failure_stays(
    has_php: bool,
    path: Seq<char>,
    regions: Seq<CodeRegionView>,
    n: int,
    m: int,
)
    requires
        0 <= n <= m,
        region_endpoints(has_php, path, regions, n) is Err,
    ensures
        region_endpoints(has_php, path, regions, m) == region_endpoints(has_php, path, regions, n),
    decreases m - n,
{
    if n < m {
        lemma_region_failure_stays(has_php, path, regions, n, m - 1);
    }
}

/// Two passes over the same content of a file: where the extraction
/// succeeds, the second pass reports every endpoint that the inventory
/// attributes to the file as unchanged and nothing as added, removed or
/// modified, and it leaves the endpoints of the inventory as they are.
pub proof fn lemma_same_content_twice(state: EndpointStateView, has_php: bool, diff: FileDiffView)
    requires
        extraction(has_php, diff.path, diff.new_content) matches Some(Ok(_)),
    ensures
        ({
            let first = file_pass(state, has_php, diff);
            let second = file_pass(first.0, has_php, diff);
            &&& second.1 == (EndpointChangesView {
                added: Seq::empty(),
                modified: Seq::empty(),
                removed: Seq::empty(),
                unchanged: endpoints_in_file(first.0.entries, diff.path),
            })
            &&& second.0.entries == first.0.entries
        }),
{
    let found = extraction(has_php, diff.path, diff.new_content)->0->Ok_0;
    crate::state::lemma_second_pass_is_quiet(
        state,
        diff.path,
        found,
        sha256_hex(diff.new_content),
    );
}

/// A region that starts at the first line and holds the whole content of
/// a file gives what the extraction of the file gives.
pub proof fn lemma_whole_file_region(has_php: bool, path: Seq<char>, region: CodeRegionView)
    requires
        region.start_line == 1,
        region.has_changes,
    ensures
        region_endpoints(has_php, path, seq![region], 1) == match extraction(
            has_php,
            path,
            region.content,
        ) {
            Some(found) => found,
            None => Ok(Seq::empty()),
        },
{
    assert(region_endpoints(has_php, path, seq![region], 0) == Ok::<
        Seq<EndpointView>,
        ExtractError,
    >(Seq::empty()));
    match extraction(has_php, path, region.content) {
        Some(Ok(found)) => {
            assert(rebased_all(found, 1) =~= found);
            assert(Seq::<EndpointView>::empty() + found =~= found);
        },
        _ => {},
    }
}

} // verus!
