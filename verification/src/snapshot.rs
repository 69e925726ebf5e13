//! Snapshots: fixed point-in-time read views.
//!
//! A snapshot captures the state of every column family at its creation.
//! Reads and scans through it observe exactly that state, however the
//! database moves on afterwards; a read through the handle observes the
//! current state. This is snapshot isolation, and the crate applies it
//! uniformly to default and column-family reads.

use vstd::prelude::*;

use crate::column_family::ColumnFamily;
use crate::db::DB;
use crate::dbvector::DBVector;
use crate::error::Error;
use crate::iterator::DBIterator;
use crate::iterator::DBRawIterator;
use crate::iterator::IteratorMode;
use crate::iterator::cursor_entries;
use crate::keyspace::lb;
use crate::keyspace::ub;
use crate::read_options::ReadOptions;
use crate::registry::FamilyRecord;
use crate::registry::cf_valid_in;
use crate::registry::default_index;
use crate::registry::default_map_of;
use crate::registry::duplicate_families;
use crate::registry::family_map_of;
use crate::registry::lemma_default_index;
use crate::registry::lemma_default_index_stable;
use crate::registry::lemma_same_families_wf;
use crate::registry::locate_default;
use crate::registry::read_at;
use crate::registry::registry_wf;
use crate::registry::same_families;
use crate::registry::family_like;

verus! {

/// A consistent view of every column family, fixed at creation time.
pub struct Snapshot {
    families: Vec<FamilyRecord>,
}

/// Record-for-record agreement carries every family's map over, and the
/// default family's with it.
pub proof fn lemma_same_families_maps(a: Seq<FamilyRecord>, b: Seq<FamilyRecord>)
    requires
        registry_wf(a),
        same_families(a, b),
    ensures
        forall|i: int| 0 <= i < a.len() ==> family_map_of(b, i) == family_map_of(a, i),
        default_map_of(b) == default_map_of(a),
{
    assert forall|i: int| 0 <= i < a.len() implies family_map_of(b, i) == family_map_of(a, i) by {
        assert(family_like(a[i], b[i]));
    }
    assert forall|i: int|
        0 <= i < a.len() implies (#[trigger] b[i]).name@ == a[i].name@ && b[i].alive
        == a[i].alive by {
        assert(family_like(a[i], b[i]));
    }
    lemma_default_index_stable(a, b);
    lemma_default_index(a);
}

impl Snapshot {
    /// The captured registry.
    pub closed spec fn families(&self) -> Seq<FamilyRecord> {
        self.families@
    }

    /// The captured registry is well-formed.
    pub open spec fn wf(&self) -> bool {
        registry_wf(self.families())
    }

    /// The map the snapshot holds for the family at position `i`.
    pub open spec fn family_map(&self, i: int) -> Map<Seq<u8>, Seq<u8>> {
        family_map_of(self.families(), i)
    }

    /// The map the snapshot holds for the default family.
    pub open spec fn default_map(&self) -> Map<Seq<u8>, Seq<u8>> {
        default_map_of(self.families())
    }

    /// The captured registry, for reads through this snapshot.
    pub(crate) fn families_ref(&self) -> (r: &Vec<FamilyRecord>)
        ensures
            r@ == self.families(),
    {
        &self.families
    }

    /// Captures the database's state: every later read through the snapshot
    /// observes exactly this state.
    pub fn new(db: &DB) -> (r: Snapshot)
        requires
            db.wf(),
        ensures
            r.wf(),
            same_families(db.families(), r.families()),
            r.default_map() == db.default_map(),
            forall|i: int| 0 <= i < db.families().len() ==> r.family_map(i) == db.family_map(i),
    {
        let fams = duplicate_families(db.families_ref());
        proof {
            lemma_same_families_wf(db.families(), fams@);
            lemma_same_families_maps(db.families(), fams@);
        }
        Snapshot { families: fams }
    }

    /// Reads `key` in the captured default family.
    pub fn get(&self, key: &[u8]) -> (r: Result<Option<DBVector>, Error>)
        requires
            self.wf(),
        ensures
            r is Ok,
            r->Ok_0 is Some <==> self.default_map().dom().contains(key@),
            r->Ok_0 is Some ==> r->Ok_0.unwrap()@ == self.default_map()[key@],
    {
        let d = locate_default(&self.families);
        proof {
            lemma_default_index(self.families@);
        }
        match read_at(&self.families, d, key) {
            Some(v) => Ok(Some(DBVector::from_vec(v))),
            None => Ok(None),
        }
    }

    /// Reads `key` in the captured state of the given column family.
    pub fn get_cf(&self, cf: ColumnFamily, key: &[u8]) -> (r: Result<Option<DBVector>, Error>)
        requires
            self.wf(),
        ensures
            r is Err <==> !cf_valid_in(self.families(), cf),
            r matches Err(e) ==> e == Error::InvalidColumnFamily,
            r is Ok ==> (r->Ok_0 is Some <==> self.family_map(cf.index as int).dom().contains(
                key@,
            )),
            r is Ok && r->Ok_0 is Some ==> r->Ok_0.unwrap()@ == self.family_map(cf.index as int)[key@],
    {
        if !(cf.index < self.families.len() && self.families[cf.index].alive) {
            return Err(Error::InvalidColumnFamily);
        }
        match read_at(&self.families, cf.index, key) {
            Some(v) => Ok(Some(DBVector::from_vec(v))),
            None => Ok(None),
        }
    }

    /// An iterator over the captured default family, started per `mode`.
    pub fn iterator(&self, mode: IteratorMode) -> (r: DBIterator)
        requires
            self.wf(),
        ensures
            r.wf(),
            r.entries() == cursor_entries(
                self.families(),
                default_index(self.families()),
                None::<Seq<u8>>,
                None,
            ),
            mode is Start ==> r.stream() == r.entries(),
            mode is End ==> r.stream() == r.entries().reverse(),
            mode matches IteratorMode::From(k, d) ==> {
                &&& (d is Forward ==> r.stream() == r.entries().skip(lb(r.entries(), k@)))
                &&& (d is Reverse ==> r.stream() == r.entries().take(
                    ub(r.entries(), k@),
                ).reverse())
            },
    {
        let readopts = ReadOptions::new();
        DBIterator::from_families(&self.families, &readopts, mode)
    }

    /// An iterator over the captured state of the given column family,
    /// started per `mode`.
    pub fn iterator_cf(&self, cf_handle: ColumnFamily, mode: IteratorMode) -> (r: Result<
        DBIterator,
        Error,
    >)
        requires
            self.wf(),
        ensures
            r is Err <==> !cf_valid_in(self.families(), cf_handle),
            r matches Err(e) ==> e == Error::InvalidColumnFamily,
            r matches Ok(it) ==> {
                &&& it.wf()
                &&& it.entries() == cursor_entries(
                    self.families(),
                    cf_handle.index as int,
                    None::<Seq<u8>>,
                    None,
                )
                &&& (mode is Start ==> it.stream() == it.entries())
                &&& (mode is End ==> it.stream() == it.entries().reverse())
                &&& (mode matches IteratorMode::From(k, d) ==> {
                    &&& (d is Forward ==> it.stream() == it.entries().skip(lb(it.entries(), k@)))
                    &&& (d is Reverse ==> it.stream() == it.entries().take(
                        ub(it.entries(), k@),
                    ).reverse())
                })
            },
    {
        let readopts = ReadOptions::new();
        DBIterator::from_families_cf(&self.families, cf_handle, &readopts, mode)
    }

    /// A raw cursor over the captured default family.
    pub fn raw_iterator(&self) -> (r: DBRawIterator)
        requires
            self.wf(),
        ensures
            r.wf(),
            !r.is_positioned(),
            r.entries() == cursor_entries(
                self.families(),
                default_index(self.families()),
                None,
                None,
            ),
    {
        let d = locate_default(&self.families);
        proof {
            lemma_default_index(self.families@);
        }
        DBRawIterator::from_family(&self.families, d, None, None)
    }

    /// A raw cursor over the captured state of the given column family.
    pub fn raw_iterator_cf(&self, cf_handle: ColumnFamily) -> (r: Result<DBRawIterator, Error>)
        requires
            self.wf(),
        ensures
            r is Err <==> !cf_valid_in(self.families(), cf_handle),
            r matches Err(e) ==> e == Error::InvalidColumnFamily,
            r matches Ok(c) ==> c.wf() && !c.is_positioned() && c.entries() == cursor_entries(
                self.families(),
                cf_handle.index as int,
                None,
                None,
            ),
    {
        if !(cf_handle.index < self.families.len() && self.families[cf_handle.index].alive) {
            return Err(Error::InvalidColumnFamily);
        }
        Ok(DBRawIterator::from_family(&self.families, cf_handle.index, None, None))
    }
}

} // verus!
