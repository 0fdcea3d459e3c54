//! Breaking changes: which parts of a delta break the callers of an API.

use vstd::prelude::*;
use vstd::string::StringExecFns;
use crate::changes::{ChangeType, EndpointChange, EndpointChangeView, EndpointChanges, change_views};
use crate::endpoint::{Endpoint, EndpointView, endpoint_views};
use crate::extract::text_views;

verus! {

/// The message for a removed endpoint.
pub open spec fn removal_message(e: EndpointView) -> Seq<char> {
    "Removed endpoint: "@ + e.method.label_spec() + " "@ + e.path
}

/// The message for a modification, where it breaks callers: a changed path
/// or a changed method.
pub open spec fn modification_message(change: EndpointChangeView) -> Option<Seq<char>> {
    match change.change_type {
        ChangeType::PathChanged => Some(
            "Changed path: "@ + change.old.method.label_spec() + " "@ + change.old.path + " -> "@
                + change.new.path,
        ),
        ChangeType::MethodChanged => Some(
            "Changed method: "@ + change.old.method.label_spec() + " "@ + change.old.path + " -> "@
                + change.new.method.label_spec() + " "@ + change.new.path,
        ),
        _ => None,
    }
}

/// The messages for the first `n` removed endpoints.
pub open spec fn removal_messages(removed: Seq<EndpointView>, n: int) -> Seq<Seq<char>>
    decreases n,
{
    if n <= 0 {
        Seq::empty()
    } else {
        removal_messages(removed, n - 1).push(removal_message(removed[n - 1]))
    }
}

/// The messages for the first `n` modifications.
pub open spec fn modification_messages(modified: Seq<EndpointChangeView>, n: int) -> Seq<Seq<char>>
    decreases n,
{
    if n <= 0 {
        Seq::empty()
    } else {
        match modification_message(modified[n - 1]) {
            Some(m) => modification_messages(modified, n - 1).push(m),
            None => modification_messages(modified, n - 1),
        }
    }
}

/// The messages for every breaking change of a delta: first every removed
/// endpoint, then every modification that changes a path or a method.
pub open spec fn breaking_messages(removed: Seq<EndpointView>, modified: Seq<EndpointChangeView>) -> Seq<
    Seq<char>,
> {
    removal_messages(removed, removed.len() as int) + modification_messages(
        modified,
        modified.len() as int,
    )
}

fn describe_removal(e: &Endpoint) -> (out: String)
    ensures
        out@ == removal_message(e@),
{
    let mut out = String::from_str("Removed endpoint: ");
    out.append(e.method.label());
    out.append(" ");
    out.append(e.path.as_str());
    out
}

fn describe_modification(change: &EndpointChange) -> (out: Option<String>)
    ensures
        match out {
            Some(m) => modification_message(change@) == Some(m@),
            None => modification_message(change@) is None,
        },
{
    match change.change_type {
        ChangeType::PathChanged => {
            let mut out = String::from_str("Changed path: ");
            out.append(change.old.method.label());
            out.append(" ");
            out.append(change.old.path.as_str());
            out.append(" -> ");
            out.append(change.new.path.as_str());
            Some(out)
        },
        ChangeType::MethodChanged => {
            let mut out = String::from_str("Changed method: ");
            out.append(change.old.method.label());
            out.append(" ");
            out.append(change.old.path.as_str());
            out.append(" -> ");
            out.append(change.new.method.label());
            out.append(" ");
            out.append(change.new.path.as_str());
            Some(out)
        },
        _ => None,
    }
}

/// Lists the breaking changes of a delta, one message each.
pub fn detect_breaking_changes(changes: &EndpointChanges) -> (out: Vec<String>)
    ensures
        text_views(out@) == breaking_messages(changes@.removed, changes@.modified),
{
    let mut out: Vec<String> = Vec::new();
    let ghost removed = endpoint_views(changes.removed@);
    let ghost modified = change_views(changes.modified@);
    let mut i: usize = 0;
    assert(text_views(out@) =~= removal_messages(removed, 0));
    while i < changes.removed.len()
        invariant
            i <= changes.removed.len(),
            removed == endpoint_views(changes.removed@),
            text_views(out@) == removal_messages(removed, i as int),
        decreases changes.removed.len() - i,
    {
        let ghost before = text_views(out@);
        let message = describe_removal(&changes.removed[i]);
        out.push(message);
        assert(text_views(out@) =~= before.push(message@));
        i += 1;
    }
    let ghost first = text_views(out@);
    let mut k: usize = 0;
    assert(text_views(out@) =~= first + modification_messages(modified, 0));
    while k < changes.modified.len()
        invariant
            k <= changes.modified.len(),
            modified == change_views(changes.modified@),
            text_views(out@) == first + modification_messages(modified, k as int),
        decreases changes.modified.len() - k,
    {
        let ghost before = text_views(out@);
        match describe_modification(&changes.modified[k]) {
            Some(message) => {
                out.push(message);
                assert(text_views(out@) =~= before.push(message@));
                assert(text_views(out@) =~= first + modification_messages(modified, k as int + 1));
            },
            None => {},
        }
        k += 1;
    }
    out
}

} // verus!
