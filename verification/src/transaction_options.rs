//! Per-transaction configuration: snapshotting, deadlock detection and the
//! bounded waits that cap a transaction's lock acquisition and lifetime.

use vstd::prelude::*;

verus! {

/// Options a transaction is begun with.
pub struct TransactionOptions {
    /// Fix a snapshot for the transaction at begin time.
    pub snapshot: bool,
    /// Run cycle detection over the shared lock table instead of waiting out
    /// the timeout.
    pub deadlock_detect: bool,
    /// Lock wait cap, in milliseconds.
    pub lock_timeout: usize,
    /// Transaction lifetime cap, in milliseconds.
    pub expiration: usize,
    /// How many hops cycle detection follows before giving up.
    pub deadlock_detect_depth: usize,
    /// Cap on the transaction's staged write batch, in bytes.
    pub max_write_batch_size: usize,
}

impl TransactionOptions {
    pub fn new() -> (r: TransactionOptions)
        ensures
            !r.snapshot,
            !r.deadlock_detect,
            r.lock_timeout == 0,
            r.expiration == 0,
            r.deadlock_detect_depth == 0,
            r.max_write_batch_size == 0,
    {
        TransactionOptions {
            snapshot: false,
            deadlock_detect: false,
            lock_timeout: 0,
            expiration: 0,
            deadlock_detect_depth: 0,
            max_write_batch_size: 0,
        }
    }

    pub fn set_snapshot(&mut self, value: bool)
        ensures
            *final(self) == (TransactionOptions { snapshot: value, ..*old(self) }),
    {
        self.snapshot = value;
    }

    pub fn set_deadlock_detect(&mut self, value: bool)
        ensures
            *final(self) == (TransactionOptions { deadlock_detect: value, ..*old(self) }),
    {
        self.deadlock_detect = value;
    }

    pub fn set_lock_timeout(&mut self, value: usize)
        ensures
            *final(self) == (TransactionOptions { lock_timeout: value, ..*old(self) }),
    {
        self.lock_timeout = value;
    }

    pub fn set_expiration(&mut self, value: usize)
        ensures
            *final(self) == (TransactionOptions { expiration: value, ..*old(self) }),
    {
        self.expiration = value;
    }

    pub fn set_deadlock_detect_depth(&mut self, value: usize)
        ensures
            *final(self) == (TransactionOptions { deadlock_detect_depth: value, ..*old(self) }),
    {
        self.deadlock_detect_depth = value;
    }

    pub fn set_max_write_batch_size(&mut self, value: usize)
        ensures
            *final(self) == (TransactionOptions { max_write_batch_size: value, ..*old(self) }),
    {
        self.max_write_batch_size = value;
    }
}

impl Default for TransactionOptions {
    fn default() -> (r: TransactionOptions)
        ensures
            !r.snapshot,
            !r.deadlock_detect,
            r.lock_timeout == 0,
            r.expiration == 0,
            r.deadlock_detect_depth == 0,
            r.max_write_batch_size == 0,
    {
        TransactionOptions::new()
    }
}

} // verus!
