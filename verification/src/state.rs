//! The endpoint inventory: every known endpoint with the file it was found
//! in, and the content hash of every file that was read.

use std::time::SystemTime;
use vstd::prelude::*;
use crate::changes::{
    EndpointChangesView, accepted, compare_endpoints, delta, distinct_keys, find_latest, has_key,
    is_latest, lemma_pick_members, pick,
};
use crate::endpoint::{Endpoint, EndpointView, endpoint_views};
use crate::text::same_text;

verus! {

/// An endpoint together with the file it was found in.
#[derive(Debug)]
pub struct TrackedEndpoint {
    pub file: String,
    pub endpoint: Endpoint,
}

/// The mathematical value of a [`TrackedEndpoint`].
pub struct TrackedView {
    pub file: Seq<char>,
    pub endpoint: EndpointView,
}

impl View for TrackedEndpoint {
    type V = TrackedView;

    open spec fn view(&self) -> TrackedView {
        TrackedView { file: self.file@, endpoint: self.endpoint@ }
    }
}

impl Clone for TrackedEndpoint {
    fn clone(&self) -> (out: Self)
        ensures
            out@ == self@,
    {
        TrackedEndpoint { file: self.file.clone(), endpoint: self.endpoint.clone() }
    }
}

/// The content hash of one file.
#[derive(Debug)]
pub struct FileHash {
    pub path: String,
    pub hash: String,
}

/// The mathematical value of a [`FileHash`].
pub struct FileHashView {
    pub path: Seq<char>,
    pub hash: Seq<char>,
}

impl View for FileHash {
    type V = FileHashView;

    open spec fn view(&self) -> FileHashView {
        FileHashView { path: self.path@, hash: self.hash@ }
    }
}

impl Clone for FileHash {
    fn clone(&self) -> (out: Self)
        ensures
            out@ == self@,
    {
        FileHash { path: self.path.clone(), hash: self.hash.clone() }
    }
}

/// The values of a list of tracked endpoints.
pub open spec fn tracked_views(s: Seq<TrackedEndpoint>) -> Seq<TrackedView> {
    Seq::new(s.len(), |i: int| s[i]@)
}

/// The values of a list of file hashes.
pub open spec fn hash_views(s: Seq<FileHash>) -> Seq<FileHashView> {
    Seq::new(s.len(), |i: int| s[i]@)
}

/// The endpoints of a list of tracked endpoints.
pub open spec fn endpoints_of(entries: Seq<TrackedView>) -> Seq<EndpointView> {
    Seq::new(entries.len(), |i: int| entries[i].endpoint)
}

/// Whether all hashes belong to different files.
pub open spec fn distinct_paths(hashes: Seq<FileHashView>) -> bool {
    forall|i: int, j: int|
        0 <= i < j < hashes.len() ==> (#[trigger] hashes[i]).path != (#[trigger] hashes[j]).path
}

/// The endpoints that are attributed to the file `path`, in the order in
/// which the inventory holds them.
pub open spec fn endpoints_in_file(entries: Seq<TrackedView>, path: Seq<char>) -> Seq<EndpointView> {
    endpoints_of(pick(entries, |i: int| entries[i].file == path, entries.len() as int))
}

/// The endpoint `e` as an entry of the file `path`.
pub open spec fn attributed(path: Seq<char>, e: EndpointView) -> TrackedView {
    TrackedView { file: path, endpoint: e }
}

/// The endpoints of `new`, each the last of its identity, attributed to
/// `path`.
pub open spec fn fresh_entries(path: Seq<char>, new: Seq<EndpointView>) -> Seq<TrackedView> {
    pick(new, |i: int| is_latest(new, i), new.len() as int).map_values(
        |e: EndpointView| attributed(path, e),
    )
}

/// The entries that survive a pass over the file `path`: those of other
/// files whose identity the new endpoints do not take over.
pub open spec fn kept_entries(entries: Seq<TrackedView>, path: Seq<char>, new: Seq<EndpointView>) -> Seq<
    TrackedView,
> {
    pick(
        entries,
        |i: int| entries[i].file != path && !has_key(new, entries[i].endpoint.key()),
        entries.len() as int,
    )
}

/// The entries after a pass over the file `path` that found the endpoints
/// `new`: what was attributed to the file before is gone, the new endpoints
/// stand at the end under their identities, and an entry of another file
/// with one of these identities has given way.
pub open spec fn entries_after(entries: Seq<TrackedView>, path: Seq<char>, new: Seq<EndpointView>) -> Seq<
    TrackedView,
> {
    kept_entries(entries, path, new) + fresh_entries(path, new)
}

/// The hashes after the file `path` was read with content hash `hash`.
pub open spec fn hashes_after(hashes: Seq<FileHashView>, path: Seq<char>, hash: Seq<char>) -> Seq<
    FileHashView,
> {
    pick(hashes, |i: int| hashes[i].path != path, hashes.len() as int).push(
        FileHashView { path, hash },
    )
}

/// The inventory of discovered endpoints.
#[derive(Debug)]
pub struct EndpointState {
    entries: Vec<TrackedEndpoint>,
    file_hashes: Vec<FileHash>,
    last_updated: SystemTime,
}

/// The mathematical value of an [`EndpointState`].
pub struct EndpointStateView {
    pub entries: Seq<TrackedView>,
    pub file_hashes: Seq<FileHashView>,
    pub last_updated: SystemTime,
}

impl EndpointStateView {
    /// Whether the inventory is a map: no identity is held twice, and no
    /// file has two hashes.
    pub open spec fn wf(self) -> bool {
        distinct_keys(endpoints_of(self.entries)) && distinct_paths(self.file_hashes)
    }

    /// The inventory after a pass over the file `path` that found the
    /// endpoints `new` in content with the hash `hash`.
    pub open spec fn after_file(self, path: Seq<char>, new: Seq<EndpointView>, hash: Seq<char>) -> EndpointStateView {
        EndpointStateView {
            entries: entries_after(self.entries, path, new),
            file_hashes: hashes_after(self.file_hashes, path, hash),
            last_updated: self.last_updated,
        }
    }

    /// The delta that a pass over the file `path` reports when it finds
    /// the endpoints `new`.
    pub open spec fn delta_for_file(self, path: Seq<char>, new: Seq<EndpointView>) -> EndpointChangesView {
        delta(endpoints_in_file(self.entries, path), new)
    }
}

impl View for EndpointState {
    type V = EndpointStateView;

    closed spec fn view(&self) -> EndpointStateView {
        EndpointStateView {
            entries: tracked_views(self.entries@),
            file_hashes: hash_views(self.file_hashes@),
            last_updated: self.last_updated,
        }
    }
}

/// Picking entries and taking their endpoints is picking among their
/// endpoints.
pub proof fn lemma_endpoints_of_pick(entries: Seq<TrackedView>, keep: spec_fn(int) -> bool, n: int)
    requires
        0 <= n <= entries.len(),
    ensures
        endpoints_of(pick(entries, keep, n)) == pick(endpoints_of(entries), keep, n),
    decreases n,
{
    if n > 0 {
        lemma_endpoints_of_pick(entries, keep, n - 1);
        if keep(n - 1) {
            assert(endpoints_of(pick(entries, keep, n)) =~= endpoints_of(
                pick(entries, keep, n - 1),
            ).push(entries[n - 1].endpoint));
        }
    } else {
        assert(endpoints_of(pick(entries, keep, n)) =~= Seq::<EndpointView>::empty());
    }
}

/// Endpoints that are each the last of their identity have different
/// identities.
pub proof fn lemma_pick_distinct(s: Seq<EndpointView>, keep: spec_fn(int) -> bool, n: int)
    requires
        0 <= n <= s.len(),
        forall|i: int| 0 <= i < n && #[trigger] keep(i) ==> is_latest(s, i),
    ensures
        distinct_keys(pick(s, keep, n)),
    decreases n,
{
    if n > 0 {
        lemma_pick_distinct(s, keep, n - 1);
        lemma_pick_members(s, keep, n - 1);
        let shorter = pick(s, keep, n - 1);
        let full = pick(s, keep, n);
        if keep(n - 1) {
            assert forall|p: int, q: int| 0 <= p < q < full.len() implies (#[trigger] full[p]).key()
                != (#[trigger] full[q]).key() by {
                if q < shorter.len() {
                    assert(full[p] == shorter[p] && full[q] == shorter[q]);
                } else {
                    assert(full[p] == shorter[p]);
                    assert(accepted(s, keep, n - 1, shorter[p]));
                    let i = choose|i: int| 0 <= i < n - 1 && #[trigger] keep(i) && s[i] == shorter[p];
                    assert(is_latest(s, i));
                    assert(s[n - 1].key() != s[i].key());
                }
            }
        }
    }
}

/// The identities of picked endpoints are identities of the list.
pub proof fn lemma_pick_keys(s: Seq<EndpointView>, keep: spec_fn(int) -> bool, n: int, p: int)
    requires
        0 <= n <= s.len(),
        0 <= p < pick(s, keep, n).len(),
    ensures
        accepted(s, keep, n, pick(s, keep, n)[p]),
        has_key(s, pick(s, keep, n)[p].key()),
{
    lemma_pick_members(s, keep, n);
    let x = pick(s, keep, n)[p];
    assert(accepted(s, keep, n, x));
    let i = choose|i: int| 0 <= i < n && #[trigger] keep(i) && s[i] == x;
    assert(s[i].key() == x.key());
}

/// A pass over a file leaves the inventory a map.
pub proof fn lemma_after_file_wf(
    state: EndpointStateView,
    path: Seq<char>,
    new: Seq<EndpointView>,
    hash: Seq<char>,
)
    requires
        state.wf(),
    ensures
        state.after_file(path, new, hash).wf(),
{
    let entries = state.entries;
    let all = endpoints_of(entries);
    let n = entries.len() as int;
    let keep = |i: int| entries[i].file != path && !has_key(new, entries[i].endpoint.key());
    let latest = |i: int| is_latest(new, i);
    let kept = kept_entries(entries, path, new);
    let fresh = fresh_entries(path, new);
    let picked = pick(new, latest, new.len() as int);
    lemma_endpoints_of_pick(entries, keep, n);
    assert forall|i: int| 0 <= i < n && #[trigger] keep(i) implies is_latest(all, i) by {
        assert forall|j: int| i < j < all.len() implies (#[trigger] all[j]).key() != all[i].key() by {
            assert(all[i].key() != all[j].key());
        }
    }
    lemma_pick_distinct(all, keep, n);
    lemma_pick_distinct(new, latest, new.len() as int);
    let after = endpoints_of(kept + fresh);
    assert forall|p: int, q: int| 0 <= p < q < after.len() implies (#[trigger] after[p]).key() != (
    #[trigger] after[q]).key() by {
        if q < kept.len() {
            assert(after[p] == endpoints_of(kept)[p]);
            assert(after[q] == endpoints_of(kept)[q]);
        } else if p >= kept.len() {
            assert(after[p] == picked[p - kept.len()]);
            assert(after[q] == picked[q - kept.len()]);
        } else {
            assert(after[p] == pick(all, keep, n)[p]);
            assert(after[q] == picked[q - kept.len()]);
            lemma_pick_keys(all, keep, n, p);
            lemma_pick_keys(new, latest, new.len() as int, q - kept.len());
            let i = choose|i: int| 0 <= i < n && #[trigger] keep(i) && all[i] == after[p];
            assert(!has_key(new, entries[i].endpoint.key()));
        }
    }
    let hashes = state.file_hashes;
    let others = |i: int| hashes[i].path != path;
    let left = pick(hashes, others, hashes.len() as int);
    lemma_pick_members(hashes, others, hashes.len() as int);
    lemma_pick_paths(hashes, others, hashes.len() as int);
    let done = hashes_after(hashes, path, hash);
    assert forall|p: int, q: int| 0 <= p < q < done.len() implies (#[trigger] done[p]).path != (
    #[trigger] done[q]).path by {
        if q < left.len() {
            assert(done[p] == left[p] && done[q] == left[q]);
        } else {
            assert(done[p] == left[p]);
            assert(accepted(hashes, others, hashes.len() as int, left[p]));
        }
    }
}

/// Picking among hashes of different files gives hashes of different files.
pub proof fn lemma_pick_paths(hashes: Seq<FileHashView>, keep: spec_fn(int) -> bool, n: int)
    requires
        0 <= n <= hashes.len(),
        distinct_paths(hashes),
    ensures
        distinct_paths(pick(hashes, keep, n)),
    decreases n,
{
    if n > 0 {
        lemma_pick_paths(hashes, keep, n - 1);
        lemma_pick_members(hashes, keep, n - 1);
        let shorter = pick(hashes, keep, n - 1);
        let full = pick(hashes, keep, n);
        if keep(n - 1) {
            assert forall|p: int, q: int| 0 <= p < q < full.len() implies (#[trigger] full[p]).path
                != (#[trigger] full[q]).path by {
                if q < shorter.len() {
                    assert(full[p] == shorter[p] && full[q] == shorter[q]);
                } else {
                    assert(full[p] == shorter[p]);
                    assert(accepted(hashes, keep, n - 1, shorter[p]));
                    let i = choose|i: int|
                        0 <= i < n - 1 && #[trigger] keep(i) && hashes[i] == shorter[p];
                    assert(hashes[i].path != hashes[n - 1].path);
                }
            }
        }
    }
}

impl EndpointState {
    /// The empty inventory.
    pub fn new(now: SystemTime) -> (out: EndpointState)
        ensures
            out@.entries.len() == 0,
            out@.file_hashes.len() == 0,
            out@.last_updated == now,
            out@.wf(),
    {
        EndpointState { entries: Vec::new(), file_hashes: Vec::new(), last_updated: now }
    }

    /// The endpoints with their files, in the order in which the inventory holds
    /// them.
    pub fn entries(&self) -> (out: &Vec<TrackedEndpoint>)
        ensures
            tracked_views(out@) == self@.entries,
    {
        &self.entries
    }

    /// The content hashes of the files that were read.
    pub fn file_hashes(&self) -> (out: &Vec<FileHash>)
        ensures
            hash_views(out@) == self@.file_hashes,
    {
        &self.file_hashes
    }

    /// When the inventory was last brought up to date.
    pub fn last_updated(&self) -> (out: SystemTime)
        ensures
            out == self@.last_updated,
    {
        self.last_updated
    }

    /// Notes that the inventory was brought up to date at `now`.
    pub fn touch(&mut self, now: SystemTime)
        ensures
            final(self)@.entries == old(self)@.entries,
            final(self)@.file_hashes == old(self)@.file_hashes,
            final(self)@.last_updated == now,
    {
        self.last_updated = now;
    }

    /// The endpoints attributed to the file `path`.
    pub fn endpoints_for_file(&self, path: &str) -> (out: Vec<Endpoint>)
        ensures
            endpoint_views(out@) == endpoints_in_file(self@.entries, path@),
    {
        let ghost all = tracked_views(self.entries@);
        let ghost keep = |i: int| all[i].file == path@;
        let mut out: Vec<Endpoint> = Vec::new();
        let mut i: usize = 0;
        assert(endpoint_views(out@) =~= endpoints_of(pick(all, keep, 0)));
        while i < self.entries.len()
            invariant
                i <= self.entries.len(),
                all == tracked_views(self.entries@),
                keep == |i: int| all[i].file == path@,
                endpoint_views(out@) == endpoints_of(pick(all, keep, i as int)),
            decreases self.entries.len() - i,
        {
            let ghost before = endpoint_views(out@);
            let entry = &self.entries[i];
            assert(all[i as int] == entry@);
            if same_text(entry.file.as_str(), path) {
                out.push(entry.endpoint.clone());
                assert(endpoint_views(out@) =~= before.push(entry@.endpoint));
                assert(endpoints_of(pick(all, keep, i as int + 1)) =~= endpoints_of(
                    pick(all, keep, i as int),
                ).push(entry@.endpoint));
            }
            i += 1;
        }
        out
    }

    /// Brings the inventory up to date after the file `path` was read: its
    /// earlier endpoints go, the endpoints `new` come under their
    /// identities, and `hash` becomes the file's content hash.
    pub fn apply_file(&mut self, path: &str, new: &Vec<Endpoint>, hash: String)
        ensures
            final(self)@ == old(self)@.after_file(path@, endpoint_views(new@), hash@),
            old(self)@.wf() ==> final(self)@.wf(),
    {
        let ghost before = self@;
        let ghost nv = endpoint_views(new@);
        let ghost all = tracked_views(self.entries@);
        let ghost keep = |i: int| all[i].file != path@ && !has_key(nv, all[i].endpoint.key());
        let ghost latest = |i: int| is_latest(nv, i);
        let ghost tag = |e: EndpointView| attributed(path@, e);
        let mut entries: Vec<TrackedEndpoint> = Vec::new();
        let mut i: usize = 0;
        assert(tracked_views(entries@) =~= pick(all, keep, 0));
        while i < self.entries.len()
            invariant
                i <= self.entries.len(),
                self@ == before,
                nv == endpoint_views(new@),
                all == tracked_views(self.entries@),
                keep == |i: int| all[i].file != path@ && !has_key(nv, all[i].endpoint.key()),
                tracked_views(entries@) == pick(all, keep, i as int),
            decreases self.entries.len() - i,
        {
            let ghost so_far = tracked_views(entries@);
            let entry = &self.entries[i];
            assert(all[i as int] == entry@);
            if !same_text(entry.file.as_str(), path) {
                match find_latest(new, &entry.endpoint, 0) {
                    None => {
                        assert(!has_key(nv, all[i as int].endpoint.key()));
                        entries.push(entry.clone());
                        assert(tracked_views(entries@) =~= so_far.push(entry@));
                    },
                    Some(j) => {
                        assert(nv[j as int].key() == all[i as int].endpoint.key());
                        assert(has_key(nv, all[i as int].endpoint.key()));
                    },
                }
            }
            i += 1;
        }
        let ghost kept = tracked_views(entries@);
        let mut k: usize = 0;
        assert(kept + pick(nv, latest, 0).map_values(tag) =~= kept);
        while k < new.len()
            invariant
                k <= new.len(),
                nv == endpoint_views(new@),
                latest == |i: int| is_latest(nv, i),
                tag == |e: EndpointView| attributed(path@, e),
                tracked_views(entries@) == kept + pick(nv, latest, k as int).map_values(tag),
            decreases new.len() - k,
        {
            let ghost so_far = tracked_views(entries@);
            let candidate = &new[k];
            assert(nv[k as int] == candidate@);
            match find_latest(new, candidate, k + 1) {
                Some(later) => {
                    assert(nv[later as int].key() == nv[k as int].key());
                    assert(!is_latest(nv, k as int));
                },
                None => {
                    assert(is_latest(nv, k as int));
                    let entry = TrackedEndpoint { file: path.to_owned(), endpoint: candidate.clone() };
                    entries.push(entry);
                    assert(tracked_views(entries@) =~= so_far.push(tag(candidate@)));
                    assert(pick(nv, latest, k as int + 1).map_values(tag) =~= pick(
                        nv,
                        latest,
                        k as int,
                    ).map_values(tag).push(tag(candidate@)));
                    assert(tracked_views(entries@) =~= kept + pick(
                        nv,
                        latest,
                        k as int + 1,
                    ).map_values(tag));
                },
            }
            k += 1;
        }
        let ghost hv = hash_views(self.file_hashes@);
        let ghost others = |i: int| hv[i].path != path@;
        let mut hashes: Vec<FileHash> = Vec::new();
        let mut h: usize = 0;
        assert(hash_views(hashes@) =~= pick(hv, others, 0));
        while h < self.file_hashes.len()
            invariant
                h <= self.file_hashes.len(),
                self@ == before,
                hv == hash_views(self.file_hashes@),
                others == |i: int| hv[i].path != path@,
                hash_views(hashes@) == pick(hv, others, h as int),
            decreases self.file_hashes.len() - h,
        {
            let ghost so_far = hash_views(hashes@);
            let entry = &self.file_hashes[h];
            assert(hv[h as int] == entry@);
            if !same_text(entry.path.as_str(), path) {
                hashes.push(entry.clone());
                assert(hash_views(hashes@) =~= so_far.push(entry@));
            }
            h += 1;
        }
        let ghost left = hash_views(hashes@);
        let noted = FileHash { path: path.to_owned(), hash };
        hashes.push(noted);
        assert(hash_views(hashes@) =~= left.push(noted@));
        self.entries = entries;
        self.file_hashes = hashes;
        proof {
            if before.wf() {
                lemma_after_file_wf(before, path@, nv, hash@);
            }
        }
    }

    /// One pass over the file `path`, which now holds the endpoints `new`
    /// in content with the hash `hash`: reports the delta against what the
    /// inventory attributed to the file, and brings the inventory up to date.
    pub fn reconcile_file(&mut self, path: &str, new: Vec<Endpoint>, hash: String) -> (out:
        crate::changes::EndpointChanges)
        ensures
            out@ == old(self)@.delta_for_file(path@, endpoint_views(new@)),
            final(self)@ == old(self)@.after_file(path@, endpoint_views(new@), hash@),
            old(self)@.wf() ==> final(self)@.wf(),
    {
        let before = self.endpoints_for_file(path);
        let changes = compare_endpoints(&before, &new);
        self.apply_file(path, &new, hash);
        changes
    }
}

/// Where a test rejects all of `a` and accepts all of `b`, picking from
/// `a` followed by `b` gives `b`.
pub proof fn lemma_pick_tail<A>(a: Seq<A>, b: Seq<A>, keep: spec_fn(int) -> bool, n: int)
    requires
        0 <= n <= b.len(),
        forall|i: int| 0 <= i < a.len() ==> !#[trigger] keep(i),
        forall|i: int| a.len() <= i < a.len() + b.len() ==> #[trigger] keep(i),
    ensures
        pick(a + b, keep, a.len() + n) == b.take(n),
    decreases n,
{
    if n == 0 {
        crate::changes::lemma_pick_none(a + b, keep, a.len() as int);
        assert(b.take(0) =~= Seq::<A>::empty());
    } else {
        lemma_pick_tail(a, b, keep, n - 1);
        assert(keep(a.len() + n - 1));
        assert((a + b)[a.len() + n - 1] == b[n - 1]);
        assert(b.take(n - 1).push(b[n - 1]) =~= b.take(n));
    }
}

/// Where a test accepts all of `a` and rejects all of `b`, picking from
/// `a` followed by `b` gives `a`.
pub proof fn lemma_pick_head<A>(a: Seq<A>, b: Seq<A>, keep: spec_fn(int) -> bool, n: int)
    requires
        0 <= n <= b.len(),
        forall|i: int| 0 <= i < a.len() ==> #[trigger] keep(i),
        forall|i: int| a.len() <= i < a.len() + b.len() ==> !#[trigger] keep(i),
    ensures
        pick(a + b, keep, a.len() + n) == a,
    decreases n,
{
    if n == 0 {
        crate::changes::lemma_pick_all(a + b, keep, a.len() as int);
        assert((a + b).take(a.len() as int) =~= a);
    } else {
        lemma_pick_head(a, b, keep, n - 1);
        assert(!keep(a.len() + n - 1));
    }
}

/// After a pass over a file, the inventory attributes to the file exactly
/// the endpoints that the pass found, each the last of its identity.
pub proof fn lemma_file_after_pass(entries: Seq<TrackedView>, path: Seq<char>, found: Seq<EndpointView>)
    ensures
        endpoints_in_file(entries_after(entries, path, found), path) == pick(
            found,
            |i: int| is_latest(found, i),
            found.len() as int,
        ),
{
    let kept = kept_entries(entries, path, found);
    let fresh = fresh_entries(path, found);
    let after = kept + fresh;
    let keep = |i: int| entries[i].file != path && !has_key(found, entries[i].endpoint.key());
    let in_file = |i: int| after[i].file == path;
    lemma_pick_members(entries, keep, entries.len() as int);
    assert forall|i: int| 0 <= i < kept.len() implies !#[trigger] in_file(i) by {
        assert(after[i] == kept[i]);
        assert(accepted(entries, keep, entries.len() as int, kept[i]));
    }
    assert forall|i: int| kept.len() <= i < kept.len() + fresh.len() implies #[trigger] in_file(
        i,
    ) by {
        assert(after[i] == fresh[i - kept.len()]);
    }
    lemma_pick_tail(kept, fresh, in_file, fresh.len() as int);
    assert(fresh.take(fresh.len() as int) =~= fresh);
    assert(endpoints_of(fresh) =~= pick(found, |i: int| is_latest(found, i), found.len() as int));
}

/// A second pass over a file whose endpoints did not change reports every
/// endpoint that the inventory attributes to the file as unchanged and
/// nothing as added, removed or modified; and it leaves the endpoints of
/// the inventory as they are.
pub proof fn lemma_second_pass_is_quiet(
    state: EndpointStateView,
    path: Seq<char>,
    found: Seq<EndpointView>,
    hash: Seq<char>,
)
    ensures
        ({
            let once = state.after_file(path, found, hash);
            &&& once.delta_for_file(path, found) == (EndpointChangesView {
                added: Seq::empty(),
                modified: Seq::empty(),
                removed: Seq::empty(),
                unchanged: endpoints_in_file(once.entries, path),
            })
            &&& once.after_file(path, found, hash).entries == once.entries
        }),
{
    let once = state.after_file(path, found, hash);
    let n = found.len() as int;
    let latest = |i: int| is_latest(found, i);
    let known = pick(found, latest, n);
    lemma_file_after_pass(state.entries, path, found);
    assert(endpoints_in_file(once.entries, path) == known);
    lemma_pick_distinct(found, latest, n);
    lemma_pick_members(found, latest, n);
    let keep_added = |i: int| crate::changes::verdict(known, found, i) is Added;
    let keep_unchanged = |i: int| crate::changes::verdict(known, found, i) is Unchanged;
    let keep_modified = |i: int| crate::changes::verdict(known, found, i) is Modified;
    let keep_removed = |i: int| is_latest(known, i) && !has_key(found, known[i].key());
    assert forall|i: int| 0 <= i < n && is_latest(found, i) implies crate::changes::verdict(
        known,
        found,
        i,
    ) is Unchanged by {
        assert(latest(i));
        assert(known.contains(found[i]));
        let p = choose|p: int| 0 <= p < known.len() && known[p] == found[i];
        crate::changes::lemma_distinct_lookup(known, p);
    }
    assert forall|i: int| 0 <= i < n implies #[trigger] keep_unchanged(i) == latest(i) by {}
    assert forall|i: int| 0 <= i < n implies !#[trigger] keep_added(i) by {}
    assert forall|i: int| 0 <= i < n implies !#[trigger] keep_modified(i) by {}
    assert forall|p: int| 0 <= p < known.len() implies !#[trigger] keep_removed(p) by {
        lemma_pick_keys(found, latest, n, p);
    }
    crate::changes::lemma_pick_none(found, keep_added, n);
    crate::changes::lemma_pick_none(found, keep_modified, n);
    crate::changes::lemma_pick_none(known, keep_removed, known.len() as int);
    crate::changes::lemma_pick_same(found, keep_unchanged, latest, n);
    assert(crate::changes::modified_between(known, found) =~= Seq::<
        crate::changes::EndpointChangeView,
    >::empty());
    // The second pass keeps what the first pass kept and adds the same endpoints again.
    let first_kept = kept_entries(state.entries, path, found);
    let fresh = fresh_entries(path, found);
    let after = once.entries;
    let keep_again = |i: int| after[i].file != path && !has_key(found, after[i].endpoint.key());
    let keep = |i: int|
        state.entries[i].file != path && !has_key(found, state.entries[i].endpoint.key());
    lemma_pick_members(state.entries, keep, state.entries.len() as int);
    assert forall|i: int| 0 <= i < first_kept.len() implies #[trigger] keep_again(i) by {
        assert(after[i] == first_kept[i]);
        assert(accepted(state.entries, keep, state.entries.len() as int, first_kept[i]));
    }
    assert forall|i: int| first_kept.len() <= i < first_kept.len() + fresh.len() implies !#[trigger] keep_again(
        i,
    ) by {
        assert(after[i] == fresh[i - first_kept.len()]);
    }
    lemma_pick_head(first_kept, fresh, keep_again, fresh.len() as int);
    assert(kept_entries(after, path, found) == first_kept);
}

/// Whether no hash behind `hashes[i]` belongs to the same file.
pub open spec fn is_latest_path(hashes: Seq<FileHashView>, i: int) -> bool {
    forall|j: int| i < j < hashes.len() ==> (#[trigger] hashes[j]).path != hashes[i].path
}

/// The entries of a snapshot that an inventory takes over: of several
/// entries with one identity the last.
pub open spec fn snapshot_entries(entries: Seq<TrackedView>) -> Seq<TrackedView> {
    pick(entries, |i: int| is_latest(endpoints_of(entries), i), entries.len() as int)
}

/// The hashes of a snapshot that an inventory takes over: of several
/// hashes of one file the last.
pub open spec fn snapshot_hashes(hashes: Seq<FileHashView>) -> Seq<FileHashView> {
    pick(hashes, |i: int| is_latest_path(hashes, i), hashes.len() as int)
}

/// Hashes that are each the last of their file belong to different files.
pub proof fn lemma_pick_latest_paths(hashes: Seq<FileHashView>, keep: spec_fn(int) -> bool, n: int)
    requires
        0 <= n <= hashes.len(),
        forall|i: int| 0 <= i < n && #[trigger] keep(i) ==> is_latest_path(hashes, i),
    ensures
        distinct_paths(pick(hashes, keep, n)),
    decreases n,
{
    if n > 0 {
        lemma_pick_latest_paths(hashes, keep, n - 1);
        lemma_pick_members(hashes, keep, n - 1);
        let shorter = pick(hashes, keep, n - 1);
        let full = pick(hashes, keep, n);
        if keep(n - 1) {
            assert forall|p: int, q: int| 0 <= p < q < full.len() implies (#[trigger] full[p]).path
                != (#[trigger] full[q]).path by {
                if q < shorter.len() {
                    assert(full[p] == shorter[p] && full[q] == shorter[q]);
                } else {
                    assert(full[p] == shorter[p]);
                    assert(accepted(hashes, keep, n - 1, shorter[p]));
                    let i = choose|i: int|
                        0 <= i < n - 1 && #[trigger] keep(i) && hashes[i] == shorter[p];
                    assert(is_latest_path(hashes, i));
                    assert(hashes[n - 1].path != hashes[i].path);
                }
            }
        }
    }
}

impl EndpointState {
    /// The inventory that a saved snapshot stands for. Where the snapshot
    /// holds an identity or a file more than once, the last entry counts.
    pub fn from_snapshot(
        entries: Vec<TrackedEndpoint>,
        file_hashes: Vec<FileHash>,
        last_updated: SystemTime,
    ) -> (out: EndpointState)
        ensures
            out@.entries == snapshot_entries(tracked_views(entries@)),
            out@.file_hashes == snapshot_hashes(hash_views(file_hashes@)),
            out@.last_updated == last_updated,
            out@.wf(),
    {
        let ghost tv = tracked_views(entries@);
        let ghost all = endpoints_of(tv);
        let ghost latest = |i: int| is_latest(endpoints_of(tv), i);
        let mut kept: Vec<TrackedEndpoint> = Vec::new();
        let mut i: usize = 0;
        assert(tracked_views(kept@) =~= pick(tv, latest, 0));
        while i < entries.len()
            invariant
                i <= entries.len(),
                tv == tracked_views(entries@),
                all == endpoints_of(tv),
                latest == |i: int| is_latest(endpoints_of(tv), i),
                tracked_views(kept@) == pick(tv, latest, i as int),
            decreases entries.len() - i,
        {
            let ghost so_far = tracked_views(kept@);
            let mut later = false;
            let mut j: usize = i + 1;
            while j < entries.len() && !later
                invariant
                    i < j <= entries.len(),
                    tv == tracked_views(entries@),
                    all == endpoints_of(tv),
                    !later ==> forall|m: int| i < m < j ==> (#[trigger] all[m]).key() != all[i as int].key(),
                    later ==> !is_latest(all, i as int),
                decreases entries.len() - j, if later { 0int } else { 1int },
            {
                assert(all[j as int] == entries[j as int]@.endpoint);
                assert(all[i as int] == entries[i as int]@.endpoint);
                if entries[j].endpoint.same_key(&entries[i].endpoint) {
                    later = true;
                } else {
                    j += 1;
                }
            }
            if !later {
                assert(is_latest(all, i as int));
                kept.push(entries[i].clone());
                assert(tracked_views(kept@) =~= so_far.push(tv[i as int]));
            }
            i += 1;
        }
        let ghost hv = hash_views(file_hashes@);
        let ghost latest_path = |i: int| is_latest_path(hv, i);
        let mut hashes: Vec<FileHash> = Vec::new();
        let mut h: usize = 0;
        assert(hash_views(hashes@) =~= pick(hv, latest_path, 0));
        while h < file_hashes.len()
            invariant
                h <= file_hashes.len(),
                hv == hash_views(file_hashes@),
                latest_path == |i: int| is_latest_path(hv, i),
                hash_views(hashes@) == pick(hv, latest_path, h as int),
            decreases file_hashes.len() - h,
        {
            let ghost so_far = hash_views(hashes@);
            let mut later = false;
            let mut j: usize = h + 1;
            while j < file_hashes.len() && !later
                invariant
                    h < j <= file_hashes.len(),
                    hv == hash_views(file_hashes@),
                    !later ==> forall|m: int| h < m < j ==> (#[trigger] hv[m]).path != hv[h as int].path,
                    later ==> !is_latest_path(hv, h as int),
                decreases file_hashes.len() - j, if later { 0int } else { 1int },
            {
                assert(hv[j as int] == file_hashes[j as int]@);
                assert(hv[h as int] == file_hashes[h as int]@);
                if same_text(file_hashes[j].path.as_str(), file_hashes[h].path.as_str()) {
                    later = true;
                } else {
                    j += 1;
                }
            }
            if !later {
                assert(is_latest_path(hv, h as int));
                hashes.push(file_hashes[h].clone());
                assert(hash_views(hashes@) =~= so_far.push(hv[h as int]));
            }
            h += 1;
        }
        proof {
            lemma_endpoints_of_pick(tv, latest, tv.len() as int);
            lemma_pick_distinct(all, latest, all.len() as int);
            lemma_pick_latest_paths(hv, latest_path, hv.len() as int);
        }
        EndpointState { entries: kept, file_hashes: hashes, last_updated }
    }

    /// The content hash that the inventory holds for the file `path`.
    pub fn hash_of(&self, path: &str) -> (out: Option<&str>)
        ensures
            match out {
                Some(hash) => exists|i: int|
                    0 <= i < self@.file_hashes.len() && (#[trigger] self@.file_hashes[i]).path
                        == path@ && self@.file_hashes[i].hash == hash@,
                None => forall|i: int|
                    0 <= i < self@.file_hashes.len() ==> (#[trigger] self@.file_hashes[i]).path
                        != path@,
            },
    {
        let mut i: usize = 0;
        while i < self.file_hashes.len()
            invariant
                i <= self.file_hashes.len(),
                forall|k: int| 0 <= k < i ==> (#[trigger] self@.file_hashes[k]).path != path@,
            decreases self.file_hashes.len() - i,
        {
            assert(self@.file_hashes[i as int] == self.file_hashes[i as int]@);
            if same_text(self.file_hashes[i].path.as_str(), path) {
                return Some(self.file_hashes[i].hash.as_str());
            }
            i += 1;
        }
        None
    }
}

} // verus!
