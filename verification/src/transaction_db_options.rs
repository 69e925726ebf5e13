//! Configuration of a transaction database: the shared lock table's shape and
//! the database-wide lock timeouts.

use vstd::prelude::*;

verus! {

/// Options a transaction database is opened with.
pub struct TransactionDBOptions {
    /// Cap on the number of locks the shared table may hold.
    pub max_num_locks: usize,
    /// How many independent stripes the lock table is split into. More
    /// stripes lower contention but let bounded-depth deadlock detection miss
    /// cross-stripe cycles — a scalability/completeness tradeoff.
    pub num_stripes: usize,
    /// Per-transaction lock wait cap, in milliseconds.
    pub transaction_lock_timeout: usize,
    /// Lock wait cap for non-transactional writes, in milliseconds.
    pub default_lock_timeout: usize,
}

impl TransactionDBOptions {
    pub fn set_max_num_locks(&mut self, size: usize)
        ensures
            final(self).max_num_locks == size,
            final(self).num_stripes == old(self).num_stripes,
            final(self).transaction_lock_timeout == old(self).transaction_lock_timeout,
            final(self).default_lock_timeout == old(self).default_lock_timeout,
    {
        self.max_num_locks = size;
    }

    pub fn set_num_stripes(&mut self, num_stripes: usize)
        ensures
            final(self).num_stripes == num_stripes,
            final(self).max_num_locks == old(self).max_num_locks,
            final(self).transaction_lock_timeout == old(self).transaction_lock_timeout,
            final(self).default_lock_timeout == old(self).default_lock_timeout,
    {
        self.num_stripes = num_stripes;
    }

    pub fn set_transaction_lock_timeout(&mut self, timeout: usize)
        ensures
            final(self).transaction_lock_timeout == timeout,
            final(self).max_num_locks == old(self).max_num_locks,
            final(self).num_stripes == old(self).num_stripes,
            final(self).default_lock_timeout == old(self).default_lock_timeout,
    {
        self.transaction_lock_timeout = timeout;
    }

    pub fn set_default_lock_timeout(&mut self, default_timeout: usize)
        ensures
            final(self).default_lock_timeout == default_timeout,
            final(self).max_num_locks == old(self).max_num_locks,
            final(self).num_stripes == old(self).num_stripes,
            final(self).transaction_lock_timeout == old(self).transaction_lock_timeout,
    {
        self.default_lock_timeout = default_timeout;
    }
}

impl Default for TransactionDBOptions {
    fn default() -> (r: TransactionDBOptions)
        ensures
            r.max_num_locks == 0,
            r.num_stripes == 0,
            r.transaction_lock_timeout == 0,
            r.default_lock_timeout == 0,
    {
        TransactionDBOptions {
            max_num_locks: 0,
            num_stripes: 0,
            transaction_lock_timeout: 0,
            default_lock_timeout: 0,
        }
    }
}

} // verus!
