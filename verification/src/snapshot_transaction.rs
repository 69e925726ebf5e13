//! Snapshots taken on the transactional path.
//!
//! A transaction snapshot captures the committed state of a transaction
//! database: staged, uncommitted mutations are not part of it. Reads and
//! scans through it observe exactly the captured state, uniformly for the
//! default and column-family reads.

use vstd::prelude::*;

use crate::column_family::ColumnFamily;
use crate::dbvector::DBVector;
use crate::error::Error;
use crate::iterator::DBIterator;
use crate::iterator::DBRawIterator;
use crate::iterator::IteratorMode;
use crate::iterator::cursor_entries;
use crate::keyspace::lb;
use crate::keyspace::ub;
use crate::read_options::ReadOptions;
use crate::registry::FamilyRecord;
use crate::registry::cf_valid_in;
use crate::registry::default_index;
use crate::registry::default_map_of;
use crate::registry::duplicate_families;
use crate::registry::family_map_of;
use crate::registry::lemma_default_index;
use crate::registry::locate_default;
use crate::registry::read_at;
use crate::registry::registry_wf;
use crate::registry::same_families;
use crate::snapshot::lemma_same_families_maps;
use crate::transaction_db::TransactionDB;
use crate::transaction_db::TransactionDBIterator;
use crate::transaction_db::TransactionDBRawIterator;

verus! {

/// A consistent view of a transaction database's committed state, fixed at
/// creation time.
pub struct TransactionSnapshot {
    families: Vec<FamilyRecord>,
}

impl TransactionSnapshot {
    /// The captured registry.
    pub closed spec fn families(&self) -> Seq<FamilyRecord> {
        self.families@
    }

    /// The captured registry is well-formed.
    pub open spec fn wf(&self) -> bool {
        registry_wf(self.families())
    }

    /// The map the snapshot holds for the family at position `i`.
    pub open spec fn family_map(&self, i: int) -> Map<Seq<u8>, Seq<u8>> {
        family_map_of(self.families(), i)
    }

    /// The map the snapshot holds for the default family.
    pub open spec fn default_map(&self) -> Map<Seq<u8>, Seq<u8>> {
        default_map_of(self.families())
    }

    /// Captures the committed state of the database: every later read
    /// through the snapshot observes exactly this state.
    pub fn new(db: &TransactionDB) -> (r: TransactionSnapshot)
        requires
            db.wf(),
        ensures
            r.wf(),
            same_families(db.families(), r.families()),
            r.default_map() == db.default_map(),
            forall|i: int| 0 <= i < db.families().len() ==> r.family_map(i) == db.family_map(i),
    {
        let fams = duplicate_families(db.families_ref());
        proof {
            crate::registry::lemma_same_families_wf(db.families(), fams@);
            lemma_same_families_maps(db.families(), fams@);
        }
        TransactionSnapshot { families: fams }
    }

    /// Reads `key` in the captured default family.
    pub fn get(&self, key: &[u8]) -> (r: Result<Option<DBVector>, Error>)
        requires
            self.wf(),
        ensures
            r is Ok,
            r->Ok_0 is Some <==> self.default_map().dom().contains(key@),
            r->Ok_0 is Some ==> r->Ok_0.unwrap()@ == self.default_map()[key@],
    {
        let d = locate_default(&self.families);
        proof {
            lemma_default_index(self.families@);
        }
        match read_at(&self.families, d, key) {
            Some(v) => Ok(Some(DBVector::from_vec(v))),
            None => Ok(None),
        }
    }

    /// Reads `key` in the captured state of the given column family.
    pub fn get_cf(&self, cf: ColumnFamily, key: &[u8]) -> (r: Result<Option<DBVector>, Error>)
        requires
            self.wf(),
        ensures
            r is Err <==> !cf_valid_in(self.families(), cf),
            r matches Err(e) ==> e == Error::InvalidColumnFamily,
            r is Ok ==> (r->Ok_0 is Some <==> self.family_map(cf.index as int).dom().contains(
                key@,
            )),
            r is Ok && r->Ok_0 is Some ==> r->Ok_0.unwrap()@ == self.family_map(cf.index as int)[key@],
    {
        if !(cf.index < self.families.len() && self.families[cf.index].alive) {
            return Err(Error::InvalidColumnFamily);
        }
        match read_at(&self.families, cf.index, key) {
            Some(v) => Ok(Some(DBVector::from_vec(v))),
            None => Ok(None),
        }
    }

    /// An iterator over the captured default family, started per `mode`.
    pub fn iterator(&self, mode: IteratorMode) -> (r: TransactionDBIterator)
        requires
            self.wf(),
        ensures
            r.wf(),
            r.entries() == cursor_entries(
                self.families(),
                default_index(self.families()),
                None::<Seq<u8>>,
                None,
            ),
            mode is Start ==> r.stream() == r.entries(),
            mode is End ==> r.stream() == r.entries().reverse(),
            mode matches IteratorMode::From(k, d) ==> {
                &&& (d is Forward ==> r.stream() == r.entries().skip(lb(r.entries(), k@)))
                &&& (d is Reverse ==> r.stream() == r.entries().take(
                    ub(r.entries(), k@),
                ).reverse())
            },
    {
        let readopts = ReadOptions::new();
        DBIterator::from_families(&self.families, &readopts, mode)
    }

    /// An iterator over the captured state of the given column family,
    /// started per `mode`.
    pub fn iterator_cf(&self, cf_handle: ColumnFamily, mode: IteratorMode) -> (r: Result<
        TransactionDBIterator,
        Error,
    >)
        requires
            self.wf(),
        ensures
            r is Err <==> !cf_valid_in(self.families(), cf_handle),
            r matches Err(e) ==> e == Error::InvalidColumnFamily,
            r matches Ok(it) ==> {
                &&& it.wf()
                &&& it.entries() == cursor_entries(
                    self.families(),
                    cf_handle.index as int,
                    None::<Seq<u8>>,
                    None,
                )
                &&& (mode is Start ==> it.stream() == it.entries())
                &&& (mode is End ==> it.stream() == it.entries().reverse())
            },
    {
        let readopts = ReadOptions::new();
        DBIterator::from_families_cf(&self.families, cf_handle, &readopts, mode)
    }

    /// A raw cursor over the captured default family.
    pub fn raw_iterator(&self) -> (r: TransactionDBRawIterator)
        requires
            self.wf(),
        ensures
            r.wf(),
            !r.is_positioned(),
            r.entries() == cursor_entries(
                self.families(),
                default_index(self.families()),
                None,
                None,
            ),
    {
        let d = locate_default(&self.families);
        proof {
            lemma_default_index(self.families@);
        }
        DBRawIterator::from_family(&self.families, d, None, None)
    }

    /// A raw cursor over the captured state of the given column family.
    pub fn raw_iterator_cf(&self, cf_handle: ColumnFamily) -> (r: Result<
        TransactionDBRawIterator,
        Error,
    >)
        requires
            self.wf(),
        ensures
            r is Err <==> !cf_valid_in(self.families(), cf_handle),
            r matches Err(e) ==> e == Error::InvalidColumnFamily,
            r matches Ok(c) ==> c.wf() && !c.is_positioned() && c.entries() == cursor_entries(
                self.families(),
                cf_handle.index as int,
                None,
                None,
            ),
    {
        if !(cf_handle.index < self.families.len() && self.families[cf_handle.index].alive) {
            return Err(Error::InvalidColumnFamily);
        }
        Ok(DBRawIterator::from_family(&self.families, cf_handle.index, None, None))
    }
}

} // verus!
