//! Per-read configuration.
//!
//! A read that must observe a snapshot carries the snapshot's view inside its
//! read options; the handle then serves the read from that view instead of
//! the current state. This is the one rule the crate applies uniformly to
//! default and column-family reads alike.

use vstd::prelude::*;

use crate::registry::FamilyRecord;
use crate::registry::duplicate_families;
use crate::registry::registry_wf;
use crate::registry::same_families;

verus! {

/// Options attached to one read or scan.
pub struct ReadOptions {
    /// Cache the blocks this read touches.
    pub fill_cache: bool,
    /// Traverse the whole keyspace in key order even when the memtable is
    /// hash-partitioned.
    pub total_order_seek: bool,
    /// Constrain iteration to keys sharing the seek key's prefix.
    pub prefix_same_as_start: bool,
    /// Stop iteration before this key.
    pub iterate_upper_bound: Option<Vec<u8>>,
    /// The snapshot view this read observes, if any.
    pub snapshot_families: Option<Vec<FamilyRecord>>,
}

impl ReadOptions {
    /// The snapshot view attached to these options, if any.
    pub open spec fn snapshot_state(&self) -> Option<Vec<FamilyRecord>> {
        self.snapshot_families
    }

    /// Whether a snapshot view is attached.
    pub open spec fn has_snapshot(&self) -> bool {
        self.snapshot_state() is Some
    }

    /// The attached snapshot view.
    pub open spec fn snapshot_view(&self) -> Seq<FamilyRecord> {
        self.snapshot_state().unwrap()@
    }

    /// Any attached snapshot view is a well-formed registry.
    pub open spec fn wf(&self) -> bool {
        self.has_snapshot() ==> registry_wf(self.snapshot_view())
    }

    /// The upper bound as a byte sequence, if one is set.
    pub open spec fn upper_bound_view(&self) -> Option<Seq<u8>> {
        match self.iterate_upper_bound {
            Some(ref b) => Some(b@),
            None => None,
        }
    }

    /// Fresh options: no snapshot, no bound, every flag off.
    pub fn new() -> (r: ReadOptions)
        ensures
            r.wf(),
            !r.has_snapshot(),
            !r.fill_cache,
            !r.total_order_seek,
            !r.prefix_same_as_start,
            r.iterate_upper_bound is None,
    {
        ReadOptions {
            fill_cache: false,
            total_order_seek: false,
            prefix_same_as_start: false,
            iterate_upper_bound: None,
            snapshot_families: None,
        }
    }

    #[allow(dead_code)]
    fn fill_cache(&mut self, v: bool)
        ensures
            final(self).fill_cache == v,
            final(self).total_order_seek == old(self).total_order_seek,
            final(self).prefix_same_as_start == old(self).prefix_same_as_start,
            final(self).iterate_upper_bound == old(self).iterate_upper_bound,
            final(self).snapshot_state() == old(self).snapshot_state(),
    {
        self.fill_cache = v;
    }

    /// Attaches a snapshot view, so that this read observes exactly that
    /// state.
    pub(crate) fn attach_snapshot_families(&mut self, fams: &Vec<FamilyRecord>)
        ensures
            final(self).has_snapshot(),
            same_families(fams@, final(self).snapshot_view()),
            final(self).fill_cache == old(self).fill_cache,
            final(self).total_order_seek == old(self).total_order_seek,
            final(self).prefix_same_as_start == old(self).prefix_same_as_start,
            final(self).iterate_upper_bound == old(self).iterate_upper_bound,
    {
        self.snapshot_families = Some(duplicate_families(fams));
    }

    /// The attached snapshot view, for the handle serving the read.
    pub(crate) fn snapshot_families_ref(&self) -> (r: Option<&Vec<FamilyRecord>>)
        ensures
            match r {
                Some(v) => self.has_snapshot() && v@ == self.snapshot_view(),
                None => !self.has_snapshot(),
            },
    {
        match &self.snapshot_families {
            Some(v) => Some(v),
            None => None,
        }
    }

    /// Attaches a snapshot, so that this read observes exactly the state the
    /// snapshot captured.
    pub fn set_snapshot(&mut self, snapshot: &crate::snapshot::Snapshot)
        ensures
            final(self).has_snapshot(),
            same_families(snapshot.families(), final(self).snapshot_view()),
            final(self).fill_cache == old(self).fill_cache,
            final(self).total_order_seek == old(self).total_order_seek,
            final(self).prefix_same_as_start == old(self).prefix_same_as_start,
            final(self).iterate_upper_bound == old(self).iterate_upper_bound,
    {
        self.attach_snapshot_families(snapshot.families_ref());
    }

    /// Keeps iteration from moving past `key`.
    pub fn set_iterate_upper_bound(&mut self, key: &[u8])
        ensures
            final(self).upper_bound_view() == Some(key@),
            final(self).fill_cache == old(self).fill_cache,
            final(self).total_order_seek == old(self).total_order_seek,
            final(self).prefix_same_as_start == old(self).prefix_same_as_start,
            final(self).snapshot_state() == old(self).snapshot_state(),
    {
        self.iterate_upper_bound = Some(crate::keyspace::copy_bytes(key));
    }

    /// Constrains iteration to keys sharing the seek key's prefix.
    pub fn set_prefix_same_as_start(&mut self, v: bool)
        ensures
            final(self).prefix_same_as_start == v,
            final(self).fill_cache == old(self).fill_cache,
            final(self).total_order_seek == old(self).total_order_seek,
            final(self).iterate_upper_bound == old(self).iterate_upper_bound,
            final(self).snapshot_state() == old(self).snapshot_state(),
    {
        self.prefix_same_as_start = v;
    }

    /// Forces total-order traversal.
    pub fn set_total_order_seek(&mut self, v: bool)
        ensures
            final(self).total_order_seek == v,
            final(self).fill_cache == old(self).fill_cache,
            final(self).prefix_same_as_start == old(self).prefix_same_as_start,
            final(self).iterate_upper_bound == old(self).iterate_upper_bound,
            final(self).snapshot_state() == old(self).snapshot_state(),
    {
        self.total_order_seek = v;
    }
}

impl Default for ReadOptions {
    fn default() -> (r: ReadOptions)
        ensures
            r.wf(),
            !r.has_snapshot(),
            !r.fill_cache,
            !r.total_order_seek,
            !r.prefix_same_as_start,
            r.iterate_upper_bound is None,
    {
        ReadOptions::new()
    }
}

} // verus!
