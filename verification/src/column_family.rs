//! Column-family handles and descriptors.

use vstd::prelude::*;

use crate::options::Options;

verus! {

/// A handle to one column family of a database: an index into the owning
/// handle's registry, checked on every use and invalidated when the family
/// is dropped.
#[derive(Clone, Copy, Debug, PartialEq, Eq, Structural)]
pub struct ColumnFamily {
    /// Position of the family in the owning handle's registry.
    pub index: usize,
}

/// The name and configuration a column family is created with.
pub struct ColumnFamilyDescriptor {
    pub name: String,
    pub options: Options,
}

impl ColumnFamilyDescriptor {
    /// A descriptor for a family with the given name and options.
    pub fn new(name: &str, options: Options) -> (r: ColumnFamilyDescriptor)
        ensures
            r.name@ == name@,
    {
        ColumnFamilyDescriptor { name: name.to_owned(), options }
    }
}

} // verus!
