//! Asset change events, reduced to what the registries must update.
use vstd::prelude::*;

use crate::table::IdTable;

verus! {

/// A change to an asset, by handle.
#[derive(Debug, Clone, Copy, PartialEq, Eq, Structural)]
pub enum AssetEvent {
    Created { handle: u64 },
    Modified { handle: u64 },
    Removed { handle: u64 },
}

/// The handle an event names.
pub open spec fn event_handle(e: AssetEvent) -> u64 {
    match e {
        AssetEvent::Created { handle } => handle,
        AssetEvent::Modified { handle } => handle,
        AssetEvent::Removed { handle } => handle,
    }
}

/// After `events`, the last event that names `handle` created or modified it.
pub open spec fn changed_after(events: Seq<AssetEvent>, handle: u64) -> bool
    decreases events.len(),
{
    if events.len() == 0 {
        false
    } else {
        let e = events.last();
        if event_handle(e) == handle {
            !(e is Removed)
        } else {
            changed_after(events.drop_last(), handle)
        }
    }
}

/// The handles of the removal events, in order.
pub open spec fn removed_handles(events: Seq<AssetEvent>) -> Seq<u64>
    decreases events.len(),
{
    if events.len() == 0 {
        Seq::empty()
    } else {
        let before = removed_handles(events.drop_last());
        match events.last() {
            AssetEvent::Removed { handle } => before.push(handle),
            _ => before,
        }
    }
}

/// What a frame's events ask of a registry: drop the removed assets, then
/// extract and store the changed ones.
#[derive(Debug, Clone)]
pub struct AssetChanges {
    /// Handles whose last event created or modified them, ascending.
    pub changed: Vec<u64>,
    /// Handles of the removal events, in order.
    pub removed: Vec<u64>,
}

/// Reduces a frame's asset events: an asset removed after its last change is
/// not extracted, one changed after its removal is.
pub fn collect_asset_changes(events: &Vec<AssetEvent>) -> (r: AssetChanges)
    ensures
        forall|i: int, j: int| 0 <= i < j < r.changed@.len() ==> r.changed@[i] < r.changed@[j],
        forall|h: u64| #[trigger] r.changed@.contains(h) <==> changed_after(events@, h),
        r.removed@ == removed_handles(events@),
{
    let mut changed: IdTable<()> = IdTable::new();
    let mut removed: Vec<u64> = Vec::new();
    let mut i: usize = 0;
    while i < events.len()
        invariant
            changed.wf(),
            i <= events@.len(),
            forall|h: u64| #[trigger] changed@.contains_key(h) <==> changed_after(events@.take(i as int), h),
            removed@ == removed_handles(events@.take(i as int)),
        decreases events@.len() - i,
    {
        let ghost t = events@.take(i + 1);
        proof {
            assert(t.drop_last() =~= events@.take(i as int));
            assert(t.last() == events@[i as int]);
        }
        match events[i] {
            AssetEvent::Created { handle } | AssetEvent::Modified { handle } => {
                changed.insert(handle, ());
            },
            AssetEvent::Removed { handle } => {
                changed.remove(handle);
                removed.push(handle);
            },
        }
        i += 1;
    }
    proof {
        assert(events@.take(i as int) =~= events@);
    }
    let mut out: Vec<u64> = Vec::new();
    let mut k: usize = 0;
    let ghost p = changed.entries();
    while k < changed.len()
        invariant
            changed.wf(),
            p == changed.entries(),
            k <= p.len(),
            out@ == p.take(k as int).map_values(|e: (u64, ())| e.0),
        decreases p.len() - k,
    {
        out.push(changed.entry(k).0);
        proof {
            assert(p.take(k + 1).map_values(|e: (u64, ())| e.0) =~= p.take(k as int).map_values(
                |e: (u64, ())| e.0,
            ).push(p[k as int].0));
        }
        k += 1;
    }
    proof {
        assert(p.take(k as int) =~= p);
        assert forall|h: u64| #[trigger] out@.contains(h) <==> changed_after(events@, h) by {
            if out@.contains(h) {
                let j = choose|j: int| 0 <= j < out@.len() && out@[j] == h;
                changed.lemma_view_at(j);
            }
            if changed@.contains_key(h) {
                let j = choose|j: int| 0 <= j < p.len() && p[j].0 == h;
                assert(out@[j] == h);
            }
        }
    }
    AssetChanges { changed: out, removed }
}

} // verus!
