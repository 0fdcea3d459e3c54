//! The delta between two endpoint lists, and how it is classified.

use vstd::prelude::*;
use crate::endpoint::{Endpoint, EndpointKey, EndpointView, endpoint_views};

verus! {

/// What distinguishes the new version of a modified endpoint from the old.
#[derive(Debug, Clone, Copy, PartialEq, Eq, Structural)]
pub enum ChangeType {
    PathChanged,
    MethodChanged,
    ParametersChanged,
    HandlerChanged,
    MiddlewareChanged,
    LineChanged,
}

/// An endpoint before and after a modification.
#[derive(Debug)]
pub struct EndpointChange {
    pub old: Endpoint,
    pub new: Endpoint,
    pub change_type: ChangeType,
}

/// The mathematical value of an [`EndpointChange`].
pub struct EndpointChangeView {
    pub old: EndpointView,
    pub new: EndpointView,
    pub change_type: ChangeType,
}

impl View for EndpointChange {
    type V = EndpointChangeView;

    open spec fn view(&self) -> EndpointChangeView {
        EndpointChangeView { old: self.old@, new: self.new@, change_type: self.change_type }
    }
}

impl Clone for EndpointChange {
    fn clone(&self) -> (out: Self)
        ensures
            out@ == self@,
    {
        EndpointChange {
            old: self.old.clone(),
            new: self.new.clone(),
            change_type: self.change_type,
        }
    }
}

/// The values of a list of modifications.
pub open spec fn change_views(s: Seq<EndpointChange>) -> Seq<EndpointChangeView> {
    Seq::new(s.len(), |i: int| s[i]@)
}

/// The endpoints that were added, modified, removed and left unchanged.
#[derive(Debug)]
pub struct EndpointChanges {
    pub added: Vec<Endpoint>,
    pub modified: Vec<EndpointChange>,
    pub removed: Vec<Endpoint>,
    pub unchanged: Vec<Endpoint>,
}

/// The mathematical value of [`EndpointChanges`].
pub struct EndpointChangesView {
    pub added: Seq<EndpointView>,
    pub modified: Seq<EndpointChangeView>,
    pub removed: Seq<EndpointView>,
    pub unchanged: Seq<EndpointView>,
}

impl View for EndpointChanges {
    type V = EndpointChangesView;

    open spec fn view(&self) -> EndpointChangesView {
        EndpointChangesView {
            added: endpoint_views(self.added@),
            modified: change_views(self.modified@),
            removed: endpoint_views(self.removed@),
            unchanged: endpoint_views(self.unchanged@),
        }
    }
}

impl EndpointChangesView {
    /// The delta that holds nothing.
    pub open spec fn empty() -> EndpointChangesView {
        EndpointChangesView {
            added: Seq::empty(),
            modified: Seq::empty(),
            removed: Seq::empty(),
            unchanged: Seq::empty(),
        }
    }

    /// This delta followed by `other`, list by list.
    pub open spec fn merged(self, other: EndpointChangesView) -> EndpointChangesView {
        EndpointChangesView {
            added: self.added + other.added,
            modified: self.modified + other.modified,
            removed: self.removed + other.removed,
            unchanged: self.unchanged + other.unchanged,
        }
    }

    /// How many endpoints the delta speaks of.
    pub open spec fn total(self) -> nat {
        self.added.len() + self.modified.len() + self.removed.len() + self.unchanged.len()
    }
}

/// Appends the endpoints of `tail` to `out`.
fn extend_endpoints(out: &mut Vec<Endpoint>, tail: Vec<Endpoint>)
    ensures
        endpoint_views(final(out)@) == endpoint_views(old(out)@) + endpoint_views(tail@),
{
    let ghost before = endpoint_views(out@);
    let ghost added = endpoint_views(tail@);
    let mut tail = tail;
    out.append(&mut tail);
    assert(endpoint_views(out@) =~= before + added);
}

/// Appends the modifications of `tail` to `out`.
fn extend_changes(out: &mut Vec<EndpointChange>, tail: Vec<EndpointChange>)
    ensures
        change_views(final(out)@) == change_views(old(out)@) + change_views(tail@),
{
    let ghost before = change_views(out@);
    let ghost added = change_views(tail@);
    let mut tail = tail;
    out.append(&mut tail);
    assert(change_views(out@) =~= before + added);
}

impl EndpointChanges {
    /// The delta that holds nothing.
    pub fn new() -> (out: EndpointChanges)
        ensures
            out@ == EndpointChangesView::empty(),
    {
        let out = EndpointChanges {
            added: Vec::new(),
            modified: Vec::new(),
            removed: Vec::new(),
            unchanged: Vec::new(),
        };
        assert(out@.added =~= Seq::empty());
        assert(out@.modified =~= Seq::empty());
        assert(out@.removed =~= Seq::empty());
        assert(out@.unchanged =~= Seq::empty());
        out
    }

    /// Appends the four lists of `other` to those of `self`.
    pub fn merge(&mut self, other: EndpointChanges)
        ensures
            final(self)@ == old(self)@.merged(other@),
    {
        extend_endpoints(&mut self.added, other.added);
        extend_changes(&mut self.modified, other.modified);
        extend_endpoints(&mut self.removed, other.removed);
        extend_endpoints(&mut self.unchanged, other.unchanged);
    }

    /// Whether anything was added, modified or removed.
    pub fn has_changes(&self) -> (out: bool)
        ensures
            out == (self@.added.len() > 0 || self@.modified.len() > 0 || self@.removed.len() > 0),
    {
        !self.added.is_empty() || !self.modified.is_empty() || !self.removed.is_empty()
    }

    /// How many endpoints the delta speaks of.
    pub fn total_count(&self) -> (out: usize)
        requires
            self@.total() <= usize::MAX,
        ensures
            out == self@.total(),
    {
        self.added.len() + self.modified.len() + self.removed.len() + self.unchanged.len()
    }
}

/// Whether some endpoint of `s` has the identity `k`.
pub open spec fn has_key(s: Seq<EndpointView>, k: EndpointKey) -> bool {
    exists|i: int| 0 <= i < s.len() && (#[trigger] s[i]).key() == k
}

/// Whether no endpoint behind `s[i]` shares its identity. Where several
/// endpoints of a list share an identity, the last one stands for it.
pub open spec fn is_latest(s: Seq<EndpointView>, i: int) -> bool {
    forall|j: int| i < j < s.len() ==> (#[trigger] s[j]).key() != s[i].key()
}

/// The last endpoint of `s` with the identity `k`.
pub open spec fn latest_with_key(s: Seq<EndpointView>, k: EndpointKey) -> EndpointView
    decreases s.len(),
{
    if s.len() == 0 {
        arbitrary()
    } else if s.last().key() == k {
        s.last()
    } else {
        latest_with_key(s.drop_last(), k)
    }
}

/// Whether all endpoints of `s` have different identities.
pub open spec fn distinct_keys(s: Seq<EndpointView>) -> bool {
    forall|i: int, j: int| 0 <= i < j < s.len() ==> (#[trigger] s[i]).key() != (#[trigger] s[j]).key()
}

/// Those of the first `n` elements of `s` whose index `keep` accepts, in
/// order.
pub open spec fn pick<A>(s: Seq<A>, keep: spec_fn(int) -> bool, n: int) -> Seq<A>
    decreases n,
{
    if n <= 0 {
        Seq::empty()
    } else if keep(n - 1) {
        pick(s, keep, n - 1).push(s[n - 1])
    } else {
        pick(s, keep, n - 1)
    }
}

/// How a modification is classified: by the first of path, method, handler
/// and position that differs.
pub open spec fn change_type_of(old: EndpointView, new: EndpointView) -> ChangeType {
    if old.path != new.path {
        ChangeType::PathChanged
    } else if old.method != new.method {
        ChangeType::MethodChanged
    } else if old.handler != new.handler {
        ChangeType::HandlerChanged
    } else if old.line != new.line || old.column != new.column {
        ChangeType::LineChanged
    } else {
        ChangeType::ParametersChanged
    }
}

/// What becomes of `new[i]` when `new` is held against `old`.
pub enum Verdict {
    /// A later endpoint of `new` has the same identity and stands for it.
    Shadowed,
    /// `old` has no endpoint of this identity.
    Added,
    /// `old` has this identity with other content.
    Modified,
    /// `old` has this identity with the same content.
    Unchanged,
}

/// What becomes of `new[i]` when `new` is held against `old`.
pub open spec fn verdict(old: Seq<EndpointView>, new: Seq<EndpointView>, i: int) -> Verdict {
    if !is_latest(new, i) {
        Verdict::Shadowed
    } else if !has_key(old, new[i].key()) {
        Verdict::Added
    } else if latest_with_key(old, new[i].key()).same_as(new[i]) {
        Verdict::Unchanged
    } else {
        Verdict::Modified
    }
}

/// The modification that leads to `new` from the endpoint of `old` with the
/// same identity.
pub open spec fn modification(old: Seq<EndpointView>, new: EndpointView) -> EndpointChangeView {
    let before = latest_with_key(old, new.key());
    EndpointChangeView { old: before, new, change_type: change_type_of(before, new) }
}

/// The endpoints of `new` whose identity `old` lacks.
pub open spec fn added_between(old: Seq<EndpointView>, new: Seq<EndpointView>) -> Seq<EndpointView> {
    pick(new, |i: int| verdict(old, new, i) is Added, new.len() as int)
}

/// The endpoints of `old` whose identity `new` lacks.
pub open spec fn removed_between(old: Seq<EndpointView>, new: Seq<EndpointView>) -> Seq<
    EndpointView,
> {
    pick(old, |i: int| is_latest(old, i) && !has_key(new, old[i].key()), old.len() as int)
}

/// The endpoints of `new` that `old` holds with the same content.
pub open spec fn unchanged_between(old: Seq<EndpointView>, new: Seq<EndpointView>) -> Seq<
    EndpointView,
> {
    pick(new, |i: int| verdict(old, new, i) is Unchanged, new.len() as int)
}

/// The endpoints of `new` that `old` holds with other content, each with
/// its old version and the kind of change.
pub open spec fn modified_between(old: Seq<EndpointView>, new: Seq<EndpointView>) -> Seq<
    EndpointChangeView,
> {
    pick(new, |i: int| verdict(old, new, i) is Modified, new.len() as int).map_values(
        |e: EndpointView| modification(old, e),
    )
}

/// The delta that leads from `old` to `new`. Endpoints are matched by
/// identity; each list keeps the order of the list it is taken from.
pub open spec fn delta(old: Seq<EndpointView>, new: Seq<EndpointView>) -> EndpointChangesView {
    EndpointChangesView {
        added: added_between(old, new),
        modified: modified_between(old, new),
        removed: removed_between(old, new),
        unchanged: unchanged_between(old, new),
    }
}

/// The last endpoint with a given identity is the one behind which no
/// endpoint has that identity.
pub proof fn lemma_latest_with_key(s: Seq<EndpointView>, k: EndpointKey, j: int)
    requires
        0 <= j < s.len(),
        s[j].key() == k,
        forall|m: int| j < m < s.len() ==> (#[trigger] s[m]).key() != k,
    ensures
        latest_with_key(s, k) == s[j],
    decreases s.len(),
{
    if j < s.len() - 1 {
        assert(s.last() == s[s.len() - 1]);
        let shorter = s.drop_last();
        assert(shorter[j] == s[j]);
        assert forall|m: int| j < m < shorter.len() implies (#[trigger] shorter[m]).key() != k by {
            assert(shorter[m] == s[m]);
        }
        lemma_latest_with_key(shorter, k, j);
    }
}

/// Picking with a test that accepts nothing gives nothing.
pub proof fn lemma_pick_none<A>(s: Seq<A>, keep: spec_fn(int) -> bool, n: int)
    requires
        forall|i: int| 0 <= i < n ==> !#[trigger] keep(i),
    ensures
        pick(s, keep, n) == Seq::<A>::empty(),
    decreases n,
{
    if n > 0 {
        lemma_pick_none(s, keep, n - 1);
    }
}

/// Picking with a test that accepts everything gives the elements
/// themselves.
pub proof fn lemma_pick_all<A>(s: Seq<A>, keep: spec_fn(int) -> bool, n: int)
    requires
        0 <= n <= s.len(),
        forall|i: int| 0 <= i < n ==> #[trigger] keep(i),
    ensures
        pick(s, keep, n) == s.take(n),
    decreases n,
{
    if n > 0 {
        lemma_pick_all(s, keep, n - 1);
        assert(s.take(n - 1).push(s[n - 1]) =~= s.take(n));
    } else {
        assert(s.take(n) =~= Seq::<A>::empty());
    }
}

/// Two tests that agree on the first `n` indices pick the same elements.
pub proof fn lemma_pick_same<A>(
    s: Seq<A>,
    keep: spec_fn(int) -> bool,
    other: spec_fn(int) -> bool,
    n: int,
)
    requires
        forall|i: int| 0 <= i < n ==> #[trigger] keep(i) == other(i),
    ensures
        pick(s, keep, n) == pick(s, other, n),
    decreases n,
{
    if n > 0 {
        lemma_pick_same(s, keep, other, n - 1);
    }
}

/// Whether `x` is one of the first `n` elements of `s` at an index that
/// `keep` accepts.
pub open spec fn accepted<A>(s: Seq<A>, keep: spec_fn(int) -> bool, n: int, x: A) -> bool {
    exists|i: int| 0 <= i < n && #[trigger] keep(i) && s[i] == x
}

/// Every picked element is an accepted element of the list, and every
/// accepted element is picked.
pub proof fn lemma_pick_members<A>(s: Seq<A>, keep: spec_fn(int) -> bool, n: int)
    requires
        0 <= n <= s.len(),
    ensures
        forall|p: int|
            0 <= p < pick(s, keep, n).len() ==> accepted(s, keep, n, #[trigger] pick(s, keep, n)[p]),
        forall|i: int| 0 <= i < n && #[trigger] keep(i) ==> pick(s, keep, n).contains(s[i]),
    decreases n,
{
    if n > 0 {
        lemma_pick_members(s, keep, n - 1);
        let shorter = pick(s, keep, n - 1);
        let full = pick(s, keep, n);
        assert forall|p: int| 0 <= p < full.len() implies accepted(s, keep, n, #[trigger] full[p]) by {
            if p < shorter.len() {
                assert(full[p] == shorter[p]);
                assert(accepted(s, keep, n - 1, shorter[p]));
                let i = choose|i: int| 0 <= i < n - 1 && #[trigger] keep(i) && s[i] == shorter[p];
                assert(0 <= i < n && keep(i) && s[i] == full[p]);
            } else {
                assert(keep(n - 1) && s[n - 1] == full[p]);
            }
        }
        assert forall|i: int| 0 <= i < n && #[trigger] keep(i) implies full.contains(s[i]) by {
            if i < n - 1 {
                assert(shorter.contains(s[i]));
                let p = choose|p: int| 0 <= p < shorter.len() && shorter[p] == s[i];
                assert(full[p] == s[i]);
            } else {
                assert(full[full.len() - 1] == s[i]);
            }
        }
    }
}

/// The last index at or behind `from` whose endpoint has the identity of
/// `probe`.
pub fn find_latest(s: &Vec<Endpoint>, probe: &Endpoint, from: usize) -> (out: Option<usize>)
    ensures
        match out {
            Some(j) => {
                &&& from <= j < s.len()
                &&& endpoint_views(s@)[j as int].key() == probe@.key()
                &&& forall|m: int|
                    j < m < s.len() ==> (#[trigger] endpoint_views(s@)[m]).key() != probe@.key()
            },
            None => forall|m: int|
                from <= m < s.len() ==> (#[trigger] endpoint_views(s@)[m]).key() != probe@.key(),
        },
{
    let mut i: usize = s.len();
    while i > from
        invariant
            i <= s.len(),
            forall|m: int|
                i <= m < s.len() ==> (#[trigger] endpoint_views(s@)[m]).key() != probe@.key(),
        decreases i,
    {
        i -= 1;
        if s[i].same_key(probe) {
            return Some(i);
        }
    }
    None
}

/// Whether two endpoints agree in everything but the documentation.
pub fn endpoints_equal(old: &Endpoint, new: &Endpoint) -> (out: bool)
    ensures
        out == old@.same_as(new@),
{
    old.method == new.method && old.path == new.path && old.handler == new.handler && old.line
        == new.line && old.column == new.column
}

/// Classifies a modification by the first of path, method, handler and
/// position that differs.
pub fn detect_change_type(old: &Endpoint, new: &Endpoint) -> (out: ChangeType)
    ensures
        out == change_type_of(old@, new@),
{
    if old.path != new.path {
        ChangeType::PathChanged
    } else if old.method != new.method {
        ChangeType::MethodChanged
    } else if old.handler != new.handler {
        ChangeType::HandlerChanged
    } else if old.line != new.line || old.column != new.column {
        ChangeType::LineChanged
    } else {
        ChangeType::ParametersChanged
    }
}

/// Holds `new` against `old` and lists what was added, modified, removed
/// and left unchanged.
pub fn compare_endpoints(old: &Vec<Endpoint>, new: &Vec<Endpoint>) -> (out: EndpointChanges)
    ensures
        out@ == delta(endpoint_views(old@), endpoint_views(new@)),
{
    let ghost ov = endpoint_views(old@);
    let ghost nv = endpoint_views(new@);
    let ghost keep_added = |i: int| verdict(ov, nv, i) is Added;
    let ghost keep_unchanged = |i: int| verdict(ov, nv, i) is Unchanged;
    let ghost keep_modified = |i: int| verdict(ov, nv, i) is Modified;
    let ghost keep_removed = |i: int| is_latest(ov, i) && !has_key(nv, ov[i].key());
    let ghost describe = |e: EndpointView| modification(ov, e);
    let mut added: Vec<Endpoint> = Vec::new();
    let mut modified: Vec<EndpointChange> = Vec::new();
    let mut unchanged: Vec<Endpoint> = Vec::new();
    let mut i: usize = 0;
    assert(change_views(modified@) =~= pick(nv, keep_modified, 0).map_values(describe));
    while i < new.len()
        invariant
            i <= new.len(),
            ov == endpoint_views(old@),
            nv == endpoint_views(new@),
            keep_added == |i: int| verdict(ov, nv, i) is Added,
            keep_unchanged == |i: int| verdict(ov, nv, i) is Unchanged,
            keep_modified == |i: int| verdict(ov, nv, i) is Modified,
            describe == |e: EndpointView| modification(ov, e),
            endpoint_views(added@) == pick(nv, keep_added, i as int),
            endpoint_views(unchanged@) == pick(nv, keep_unchanged, i as int),
            change_views(modified@) == pick(nv, keep_modified, i as int).map_values(describe),
        decreases new.len() - i,
    {
        let ghost added_before = endpoint_views(added@);
        let ghost unchanged_before = endpoint_views(unchanged@);
        let ghost modified_before = change_views(modified@);
        let candidate = &new[i];
        assert(nv[i as int] == candidate@);
        match find_latest(new, candidate, i + 1) {
            Some(later) => {
                assert(nv[later as int].key() == nv[i as int].key());
                assert(!is_latest(nv, i as int));
            },
            None => {
                assert(is_latest(nv, i as int));
                match find_latest(old, candidate, 0) {
                    None => {
                        assert(!has_key(ov, nv[i as int].key()));
                        added.push(candidate.clone());
                        assert(endpoint_views(added@) =~= added_before.push(candidate@));
                    },
                    Some(j) => {
                        assert(ov[j as int].key() == nv[i as int].key());
                        assert(has_key(ov, nv[i as int].key()));
                        proof {
                            lemma_latest_with_key(ov, nv[i as int].key(), j as int);
                        }
                        let before = &old[j];
                        assert(before@ == ov[j as int]);
                        if endpoints_equal(before, candidate) {
                            unchanged.push(candidate.clone());
                            assert(endpoint_views(unchanged@) =~= unchanged_before.push(
                                candidate@,
                            ));
                        } else {
                            let change = EndpointChange {
                                old: before.clone(),
                                new: candidate.clone(),
                                change_type: detect_change_type(before, candidate),
                            };
                            assert(change@ == modification(ov, candidate@));
                            modified.push(change);
                            assert(change_views(modified@) =~= modified_before.push(change@));
                            assert(pick(nv, keep_modified, i as int + 1).map_values(describe)
                                =~= pick(nv, keep_modified, i as int).map_values(describe).push(
                                describe(candidate@),
                            ));
                        }
                    },
                }
            },
        }
        i += 1;
    }
    let mut removed: Vec<Endpoint> = Vec::new();
    let mut k: usize = 0;
    while k < old.len()
        invariant
            k <= old.len(),
            ov == endpoint_views(old@),
            nv == endpoint_views(new@),
            keep_removed == |i: int| is_latest(ov, i) && !has_key(nv, ov[i].key()),
            endpoint_views(removed@) == pick(ov, keep_removed, k as int),
        decreases old.len() - k,
    {
        let ghost removed_before = endpoint_views(removed@);
        let candidate = &old[k];
        assert(ov[k as int] == candidate@);
        match find_latest(old, candidate, k + 1) {
            Some(later) => {
                assert(ov[later as int].key() == ov[k as int].key());
                assert(!is_latest(ov, k as int));
            },
            None => {
                assert(is_latest(ov, k as int));
                match find_latest(new, candidate, 0) {
                    None => {
                        assert(!has_key(nv, ov[k as int].key()));
                        removed.push(candidate.clone());
                        assert(endpoint_views(removed@) =~= removed_before.push(candidate@));
                    },
                    Some(j) => {
                        assert(nv[j as int].key() == ov[k as int].key());
                        assert(has_key(nv, ov[k as int].key()));
                    },
                }
            },
        }
        k += 1;
    }
    EndpointChanges { added, modified, removed, unchanged }
}

/// In a list of different identities every endpoint is the last of its
/// identity and is found under it.
pub proof fn lemma_distinct_lookup(s: Seq<EndpointView>, i: int)
    requires
        distinct_keys(s),
        0 <= i < s.len(),
    ensures
        is_latest(s, i),
        has_key(s, s[i].key()),
        latest_with_key(s, s[i].key()) == s[i],
{
    assert forall|m: int| i < m < s.len() implies (#[trigger] s[m]).key() != s[i].key() by {
        assert(s[i].key() != s[m].key());
    }
    lemma_latest_with_key(s, s[i].key(), i);
}

/// A list of endpoints with different identities, held against itself,
/// shows no change: nothing is added, removed or modified, and the
/// unchanged endpoints are the list itself.
pub proof fn lemma_delta_of_same_list(endpoints: Seq<EndpointView>)
    requires
        distinct_keys(endpoints),
    ensures
        delta(endpoints, endpoints) == (EndpointChangesView {
            added: Seq::empty(),
            modified: Seq::empty(),
            removed: Seq::empty(),
            unchanged: endpoints,
        }),
{
    let e = endpoints;
    let n = e.len() as int;
    let keep_added = |i: int| verdict(e, e, i) is Added;
    let keep_unchanged = |i: int| verdict(e, e, i) is Unchanged;
    let keep_modified = |i: int| verdict(e, e, i) is Modified;
    let keep_removed = |i: int| is_latest(e, i) && !has_key(e, e[i].key());
    assert forall|i: int| 0 <= i < n implies verdict(e, e, i) is Unchanged by {
        lemma_distinct_lookup(e, i);
    }
    assert forall|i: int| 0 <= i < n implies !#[trigger] keep_removed(i) by {
        lemma_distinct_lookup(e, i);
    }
    assert forall|i: int| 0 <= i < n implies !#[trigger] keep_added(i) by {
        assert(verdict(e, e, i) is Unchanged);
    }
    assert forall|i: int| 0 <= i < n implies !#[trigger] keep_modified(i) by {
        assert(verdict(e, e, i) is Unchanged);
    }
    assert forall|i: int| 0 <= i < n implies #[trigger] keep_unchanged(i) by {
        assert(verdict(e, e, i) is Unchanged);
    }
    lemma_pick_none(e, keep_added, n);
    lemma_pick_none(e, keep_modified, n);
    lemma_pick_none(e, keep_removed, n);
    lemma_pick_all(e, keep_unchanged, n);
    assert(e.take(n) =~= e);
    assert(modified_between(e, e) =~= Seq::<EndpointChangeView>::empty());
}

/// The last endpoint with an identity that the list holds has that
/// identity.
pub proof fn lemma_latest_has_key(s: Seq<EndpointView>, k: EndpointKey)
    requires
        has_key(s, k),
    ensures
        latest_with_key(s, k).key() == k,
    decreases s.len(),
{
    let i = choose|i: int| 0 <= i < s.len() && (#[trigger] s[i]).key() == k;
    if s.last().key() != k {
        assert(s.drop_last()[i] == s[i]);
        lemma_latest_with_key_in(s.drop_last(), k, i);
        lemma_latest_has_key(s.drop_last(), k);
    }
}

/// A list that holds an identity at some index holds it.
pub proof fn lemma_latest_with_key_in(s: Seq<EndpointView>, k: EndpointKey, i: int)
    requires
        0 <= i < s.len(),
        s[i].key() == k,
    ensures
        has_key(s, k),
{
}

/// A modification never moves an endpoint: its two versions have the same
/// method, path and line, so it is a change of the handler or of the
/// column, never of the path or the method.
pub proof fn lemma_modified_keep_identity(old: Seq<EndpointView>, new: Seq<EndpointView>, p: int)
    requires
        0 <= p < modified_between(old, new).len(),
    ensures
        modified_between(old, new)[p].old.key() == modified_between(old, new)[p].new.key(),
        modified_between(old, new)[p].change_type == ChangeType::HandlerChanged
            || modified_between(old, new)[p].change_type == ChangeType::LineChanged,
{
    let keep = |i: int| verdict(old, new, i) is Modified;
    let picked = pick(new, keep, new.len() as int);
    lemma_pick_members(new, keep, new.len() as int);
    assert(accepted(new, keep, new.len() as int, picked[p]));
    let i = choose|i: int| 0 <= i < new.len() && #[trigger] keep(i) && new[i] == picked[p];
    assert(verdict(old, new, i) is Modified);
    lemma_latest_has_key(old, new[i].key());
}

/// An endpoint that moves to another line is another endpoint: the old one
/// is removed and the new one added, and nothing is modified.
pub proof fn lemma_moved_endpoint(before: EndpointView, after: EndpointView)
    requires
        before.line != after.line,
    ensures
        delta(seq![before], seq![after]) == (EndpointChangesView {
            added: seq![after],
            modified: Seq::empty(),
            removed: seq![before],
            unchanged: Seq::empty(),
        }),
{
    let old = seq![before];
    let new = seq![after];
    assert(before.key() != after.key());
    assert(!has_key(old, after.key())) by {
        assert forall|i: int| 0 <= i < old.len() implies (#[trigger] old[i]).key()
            != after.key() by {}
    }
    assert(!has_key(new, before.key())) by {
        assert forall|i: int| 0 <= i < new.len() implies (#[trigger] new[i]).key()
            != before.key() by {}
    }
    assert(is_latest(new, 0));
    assert(is_latest(old, 0));
    assert(verdict(old, new, 0) is Added);
    let keep_added = |i: int| verdict(old, new, i) is Added;
    let keep_unchanged = |i: int| verdict(old, new, i) is Unchanged;
    let keep_modified = |i: int| verdict(old, new, i) is Modified;
    let keep_removed = |i: int| is_latest(old, i) && !has_key(new, old[i].key());
    assert(keep_added(0));
    assert(keep_removed(0));
    lemma_pick_all(new, keep_added, 1);
    lemma_pick_all(old, keep_removed, 1);
    assert forall|i: int| 0 <= i < 1 implies !#[trigger] keep_unchanged(i) by {}
    assert forall|i: int| 0 <= i < 1 implies !#[trigger] keep_modified(i) by {}
    lemma_pick_none(new, keep_unchanged, 1);
    lemma_pick_none(new, keep_modified, 1);
    assert(new.take(1) =~= new);
    assert(old.take(1) =~= old);
    assert(modified_between(old, new) =~= Seq::<EndpointChangeView>::empty());
}

} // verus!
