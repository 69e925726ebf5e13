//! Database-wide configuration.
//!
//! Configuration objects are opaque to the engine model: they record what the
//! caller asked for, and the contracts say exactly which fields each setter
//! writes.

use vstd::prelude::*;

verus! {

/// Options a database is opened with.
pub struct Options {
    /// Create the engine directory when it is missing.
    pub create_if_missing: bool,
}

impl Options {
    /// Fresh options with every flag off.
    pub fn new() -> (r: Options)
        ensures
            !r.create_if_missing,
    {
        Options { create_if_missing: false }
    }

    /// Sets whether opening a missing database creates it.
    pub fn create_if_missing(&mut self, create: bool)
        ensures
            final(self).create_if_missing == create,
    {
        self.create_if_missing = create;
    }
}

impl Default for Options {
    fn default() -> (r: Options)
        ensures
            !r.create_if_missing,
    {
        Options::new()
    }
}

} // verus!
