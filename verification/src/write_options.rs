//! Per-write configuration: synchronous flushing and the write-ahead log.
//!
//! Disabling the log trades durability for throughput but keeps the atomicity
//! of a committed batch; both flags are configuration the model records and
//! passes through unchanged.

use vstd::prelude::*;

verus! {

/// Options attached to one write or batch commit.
pub struct WriteOptions {
    /// Force a synchronous flush of the write.
    pub sync: bool,
    /// Skip the write-ahead log for this write.
    pub wal_disabled: bool,
}

impl WriteOptions {
    pub fn new() -> (r: WriteOptions)
        ensures
            !r.sync,
            !r.wal_disabled,
    {
        WriteOptions { sync: false, wal_disabled: false }
    }

    /// Sets whether the write is flushed synchronously.
    pub fn set_sync(&mut self, sync: bool)
        ensures
            final(self).sync == sync,
            final(self).wal_disabled == old(self).wal_disabled,
    {
        self.sync = sync;
    }

    /// Sets whether the write bypasses the write-ahead log.
    pub fn disable_wal(&mut self, disable: bool)
        ensures
            final(self).wal_disabled == disable,
            final(self).sync == old(self).sync,
    {
        self.wal_disabled = disable;
    }
}

impl Default for WriteOptions {
    fn default() -> (r: WriteOptions)
        ensures
            !r.sync,
            !r.wal_disabled,
    {
        WriteOptions::new()
    }
}

} // verus!
