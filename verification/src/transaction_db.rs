//! The transaction database handle and its shared lock table.
//!
//! A `TransactionDB` is a database handle whose mutations are meant to flow
//! through pessimistic transactions. It owns the one genuinely shared mutable
//! structure of the layer: the lock table. A transaction acquires a shared or
//! exclusive lock on a key before reading it for update or writing it;
//! conflicting requests by other transactions fail with a lock timeout until
//! the holder ends. The model resolves every conflicting acquisition as the
//! timeout elapsing: nothing waits in a sequential model, so the deadlock
//! error is never produced here.

use vstd::prelude::*;
use vstd::string::StringSliceAdditionalSpecFns;

use crate::column_family::ColumnFamily;
use crate::db::fresh_families;
use crate::dbvector::DBVector;
use crate::error::Error;
use crate::iterator::DBIterator;
use crate::iterator::DBRawIterator;
use crate::iterator::Direction;
use crate::iterator::IteratorMode;
use crate::iterator::cursor_entries;
use crate::keyspace::KeySpace;
use crate::keyspace::merged_value;
use crate::options::Options;
use crate::order::KeyOrder;
use crate::order::compare_keys;
use crate::read_options::ReadOptions;
use crate::registry::FamilyRecord;
use crate::registry::cf_valid_in;
use crate::registry::contains_nul;
use crate::registry::default_family_name;
use crate::registry::default_index;
use crate::registry::default_map_of;
use crate::registry::family_map_of;
use crate::registry::family_maps;
use crate::registry::find_family;
use crate::registry::has_nul;
use crate::registry::lemma_default_index;
use crate::registry::locate_default;
use crate::registry::merge_at;
use crate::registry::name_live_in;
use crate::registry::delete_at;
use crate::registry::put_at;
use crate::registry::read_at;
use crate::registry::registry_wf;
use crate::registry::same_shape;
use crate::registry::spec_default_name;
use crate::registry::updated_at;
use crate::transaction::Transaction;
use crate::transaction::TxState;
use crate::transaction_db_options::TransactionDBOptions;
use crate::transaction_options::TransactionOptions;
use crate::write_batch::WriteBatch;
use crate::write_batch::apply_batch;
use crate::write_batch::apply_ops_to;
use crate::write_batch::batch_ok;
use crate::write_batch::op_key;
use crate::write_batch::op_target;
use crate::write_batch::ops_all_valid;
use crate::write_options::WriteOptions;

verus! {

/// A cursor over a transaction database's keyspace; it behaves exactly as a
/// database cursor.
pub type TransactionDBRawIterator = DBRawIterator;

/// A typed iterator over a transaction database's keyspace; it behaves
/// exactly as a database iterator.
pub type TransactionDBIterator = DBIterator;

/// One granted lock: the family and key it covers, the transaction holding
/// it, and its level.
pub struct LockEntry {
    pub cf: usize,
    pub key: Vec<u8>,
    pub owner: u64,
    pub exclusive: bool,
}

/// The entry covers the key of that family.
pub open spec fn covers(e: LockEntry, cf: int, key: Seq<u8>) -> bool {
    e.cf == cf && e.key@ == key
}

/// Transaction `id` holds a lock on the key, exclusive when `excl` asks for
/// it.
pub open spec fn holds_lock(locks: Seq<LockEntry>, id: u64, cf: int, key: Seq<u8>, excl: bool) -> bool {
    exists|i: int|
        0 <= i < locks.len() && covers(#[trigger] locks[i], cf, key) && locks[i].owner == id && (
        locks[i].exclusive || !excl)
}

/// Another transaction holds a lock on the key that conflicts with a request
/// by `id` at the given level: any other holder blocks an exclusive request,
/// an exclusive holder blocks any request.
pub open spec fn lock_conflict(
    locks: Seq<LockEntry>,
    id: u64,
    cf: int,
    key: Seq<u8>,
    excl: bool,
) -> bool {
    exists|i: int|
        0 <= i < locks.len() && covers(#[trigger] locks[i], cf, key) && locks[i].owner != id && (
        locks[i].exclusive || excl)
}

/// Some transaction holds a lock on the key.
pub open spec fn any_lock(locks: Seq<LockEntry>, cf: int, key: Seq<u8>) -> bool {
    exists|i: int| 0 <= i < locks.len() && covers(#[trigger] locks[i], cf, key)
}

/// The locks held by transactions other than `id`.
pub open spec fn foreign_pred(id: u64) -> spec_fn(LockEntry) -> bool {
    |e: LockEntry| e.owner != id
}

/// The locks of every other transaction agree between the two tables: one
/// transaction's operations leave everyone else's locks exactly as they were.
pub open spec fn same_foreign_locks(a: Seq<LockEntry>, b: Seq<LockEntry>, id: u64) -> bool {
    a.filter(foreign_pred(id)) == b.filter(foreign_pred(id))
}

/// Pushing an entry the predicate drops leaves the filtered table unchanged.
pub proof fn lemma_filter_push_dropped(s: Seq<LockEntry>, e: LockEntry, pred: spec_fn(LockEntry) -> bool)
    requires
        !pred(e),
    ensures
        s.push(e).filter(pred) == s.filter(pred),
{
    reveal(Seq::filter);
    assert(s.push(e).drop_last() =~= s);
}

/// Removing an entry the predicate drops leaves the filtered table unchanged.
pub proof fn lemma_filter_remove_dropped(s: Seq<LockEntry>, p: int, pred: spec_fn(LockEntry) -> bool)
    requires
        0 <= p < s.len(),
        !pred(s[p]),
    ensures
        s.remove(p).filter(pred) == s.filter(pred),
    decreases s.len(),
{
    reveal(Seq::filter);
    if p == s.len() - 1 {
        assert(s.remove(p) =~= s.drop_last());
    } else {
        let t = s.remove(p);
        assert(t.drop_last() =~= s.drop_last().remove(p));
        assert(s.drop_last()[p] == s[p]);
        lemma_filter_remove_dropped(s.drop_last(), p, pred);
        assert(t.last() == s.last());
    }
}

/// Every entry of a filtered table is an entry of the table.
pub proof fn lemma_filter_element_of(s: Seq<LockEntry>, pred: spec_fn(LockEntry) -> bool)
    ensures
        forall|i: int|
            0 <= i < s.filter(pred).len() ==> exists|j: int|
                0 <= j < s.len() && #[trigger] s.filter(pred)[i] == s[j],
    decreases s.len(),
{
    reveal(Seq::filter);
    if s.len() > 0 {
        let t = s.drop_last();
        lemma_filter_element_of(t, pred);
        let f = t.filter(pred);
        let out = s.filter(pred);
        assert forall|i: int| 0 <= i < out.len() implies exists|j: int|
            0 <= j < s.len() && #[trigger] out[i] == s[j] by {
            if pred(s.last()) && i == out.len() - 1 {
                assert(out[i] == s[s.len() - 1]);
            } else {
                assert(out[i] == f[i]);
                let j = choose|j: int| 0 <= j < t.len() && f[i] == t[j];
                assert(out[i] == s[j]);
            }
        }
    }
}

/// A well-formed lock table: one entry per key and holder, no second holder
/// beside an exclusive one, and every holder below the next id to be granted.
pub open spec fn locks_wf(locks: Seq<LockEntry>, next_id: u64) -> bool {
    &&& forall|i: int, j: int|
        0 <= i < j < locks.len() ==> !((#[trigger] locks[i]).cf == (#[trigger] locks[j]).cf
            && locks[i].key@ == locks[j].key@ && locks[i].owner == locks[j].owner)
    &&& forall|i: int, j: int|
        0 <= i < locks.len() && 0 <= j < locks.len() && i != j && (#[trigger] locks[i]).cf == (
        #[trigger] locks[j]).cf && locks[i].key@ == locks[j].key@ ==> !locks[i].exclusive
            && !locks[j].exclusive
    &&& forall|i: int| 0 <= i < locks.len() ==> (#[trigger] locks[i]).owner < next_id
}

/// Some staged operation writes a key some transaction has locked.
pub open spec fn batch_blocked(
    locks: Seq<LockEntry>,
    d: int,
    ops: Seq<crate::write_batch::OpView>,
) -> bool {
    exists|i: int|
        0 <= i < ops.len() && any_lock(locks, op_target(d, #[trigger] ops[i]), op_key(ops[i]))
}

/// The index of the entry `id` holds on the key.
pub open spec fn own_lock_index(locks: Seq<LockEntry>, id: u64, cf: int, key: Seq<u8>) -> int {
    choose|i: int|
        0 <= i < locks.len() && covers(#[trigger] locks[i], cf, key) && locks[i].owner == id
}

/// A handle to one open transaction database.
pub struct TransactionDB {
    path: String,
    cfs: Vec<FamilyRecord>,
    locks: Vec<LockEntry>,
    next_tx_id: u64,
}

impl TransactionDB {
    /// The handle's column-family registry.
    pub closed spec fn families(&self) -> Seq<FamilyRecord> {
        self.cfs@
    }

    /// The path the database was opened at.
    pub closed spec fn path_view(&self) -> Seq<char> {
        self.path@
    }

    /// The shared lock table.
    pub closed spec fn locks(&self) -> Seq<LockEntry> {
        self.locks@
    }

    /// The id the next transaction will be granted.
    pub closed spec fn next_id(&self) -> u64 {
        self.next_tx_id
    }

    /// The registry and the lock table are well-formed.
    pub open spec fn wf(&self) -> bool {
        &&& registry_wf(self.families())
        &&& locks_wf(self.locks(), self.next_id())
    }

    /// The map held by the family at position `i`.
    pub open spec fn family_map(&self, i: int) -> Map<Seq<u8>, Seq<u8>> {
        family_map_of(self.families(), i)
    }

    /// The map held by the default family.
    pub open spec fn default_map(&self) -> Map<Seq<u8>, Seq<u8>> {
        default_map_of(self.families())
    }

    /// The handle is valid: it denotes a live family of this database.
    pub open spec fn cf_valid(&self, cf: ColumnFamily) -> bool {
        cf_valid_in(self.families(), cf)
    }

    /// The registry a read observes: the snapshot view attached to the read
    /// options, or the current state.
    pub open spec fn read_families(&self, readopts: &ReadOptions) -> Seq<FamilyRecord> {
        if readopts.has_snapshot() {
            readopts.snapshot_view()
        } else {
            self.families()
        }
    }

    /// The registry, for cursors, snapshots and transactions of this handle.
    pub(crate) fn families_ref(&self) -> (r: &Vec<FamilyRecord>)
        ensures
            r@ == self.families(),
    {
        &self.cfs
    }

    /// Opens a transaction database with default options, creating it if
    /// missing.
    pub fn open_default(path: &str) -> (r: Result<TransactionDB, Error>)
        ensures
            r matches Ok(db) ==> {
                &&& !has_nul(path.spec_bytes()) && path.spec_bytes().len() > 0
                &&& db.wf()
                &&& db.path_view() == path@
                &&& fresh_families(db.families(), seq![spec_default_name()])
                &&& db.locks().len() == 0
            },
            r matches Err(e) ==> (has_nul(path.spec_bytes()) && e == Error::PathEncodingError) || (
            !has_nul(path.spec_bytes()) && path.spec_bytes().len() == 0 && e
                == Error::DirectoryCreationError),
            r is Err <==> has_nul(path.spec_bytes()) || path.spec_bytes().len() == 0,
    {
        let txopts = TransactionDBOptions::default();
        let mut opts = Options::default();
        opts.create_if_missing(true);
        TransactionDB::open(&opts, &txopts, path)
    }

    /// Opens a transaction database at `path`. The call fails when the path
    /// cannot be encoded or the directory cannot be created (an empty path).
    pub fn open(opts: &Options, txopts: &TransactionDBOptions, path: &str) -> (r: Result<
        TransactionDB,
        Error,
    >)
        ensures
            r matches Ok(db) ==> {
                &&& !has_nul(path.spec_bytes()) && path.spec_bytes().len() > 0
                &&& db.wf()
                &&& db.path_view() == path@
                &&& fresh_families(db.families(), seq![spec_default_name()])
                &&& db.locks().len() == 0
            },
            r matches Err(e) ==> (has_nul(path.spec_bytes()) && e == Error::PathEncodingError) || (
            !has_nul(path.spec_bytes()) && path.spec_bytes().len() == 0 && e
                == Error::DirectoryCreationError),
            r is Err <==> has_nul(path.spec_bytes()) || path.spec_bytes().len() == 0,
    {
        let _ = opts;
        let _ = txopts;
        if contains_nul(path.as_bytes()) {
            return Err(Error::PathEncodingError);
        }
        if path.as_bytes().len() == 0 {
            return Err(Error::DirectoryCreationError);
        }
        let mut fams: Vec<FamilyRecord> = Vec::new();
        fams.push(
            FamilyRecord { name: default_family_name().to_owned(), alive: true, space: KeySpace::new() },
        );
        let db = TransactionDB {
            path: path.to_owned(),
            cfs: fams,
            locks: Vec::new(),
            next_tx_id: 0,
        };
        proof {
            assert(db.families()[0].alive && db.families()[0].name@ == spec_default_name());
        }
        Ok(db)
    }

    /// Lists the column families of the database at `path`.
    ///
    /// The model engine keeps no state outside its open handles, so a
    /// directory holds exactly the family every database is born with.
    pub fn list_cf(opts: &Options, path: &str) -> (r: Result<Vec<String>, Error>)
        ensures
            r is Err <==> has_nul(path.spec_bytes()),
            r matches Err(e) ==> e == Error::PathEncodingError,
            r matches Ok(v) ==> v@.len() == 1 && v@[0]@ == spec_default_name(),
    {
        crate::db::DB::list_cf(opts, path)
    }

    /// Destroys the database at `path`.
    ///
    /// The model engine keeps no state outside its open handles, so only the
    /// path itself can be refused.
    pub fn destroy(opts: &Options, path: &str) -> (r: Result<(), Error>)
        ensures
            r is Err <==> has_nul(path.spec_bytes()),
            r matches Err(e) ==> e == Error::PathEncodingError,
    {
        crate::db::DB::destroy(opts, path)
    }

    /// Repairs the database at `path`.
    ///
    /// The model engine keeps no state outside its open handles, so only the
    /// path itself can be refused.
    pub fn repair(opts: Options, path: &str) -> (r: Result<(), Error>)
        ensures
            r is Err <==> has_nul(path.spec_bytes()),
            r matches Err(e) ==> e == Error::PathEncodingError,
    {
        crate::db::DB::repair(opts, path)
    }

    /// The path this database was opened at.
    pub fn path(&self) -> (r: &str)
        ensures
            r@ == self.path_view(),
    {
        self.path.as_str()
    }

    /// Begins a pessimistic transaction, granting it the next id.
    pub fn begin(&mut self, write_options: &WriteOptions, txn_options: &TransactionOptions) -> (r:
        Result<Transaction, Error>)
        requires
            old(self).wf(),
            old(self).next_id() < u64::MAX,
        ensures
            r is Ok,
            final(self).wf(),
            final(self).families() == old(self).families(),
            final(self).path_view() == old(self).path_view(),
            final(self).locks() == old(self).locks(),
            final(self).next_id() == old(self).next_id() + 1,
            ({
                let tx = r->Ok_0;
                &&& tx.wf()
                &&& tx.spec_id() == old(self).next_id()
                &&& tx.spec_state() == TxState::Active
                &&& tx.ops() == Seq::<crate::write_batch::OpView>::empty()
                &&& tx.tx_locks().len() == 0
                &&& tx.marks().len() == 0
                &&& crate::transaction::attached(&tx, &*final(self))
            }),
    {
        let _ = write_options;
        let _ = txn_options;
        let id = self.next_tx_id;
        self.next_tx_id = self.next_tx_id + 1;
        let t = Transaction::fresh(id);
        proof {
            assert forall|i: int|
                0 <= i < self.locks().len() implies (#[trigger] self.locks()[i]).owner != id by {
                assert(self.locks()[i].owner < id);
            }
        }
        Ok(t)
    }

    /// Begins a transaction, recycling a finished one: the engine may reuse
    /// its allocation, and the handle given back is a fresh, active
    /// transaction with the next id.
    pub fn begin_with_txn(
        &mut self,
        write_options: &WriteOptions,
        txn_options: &TransactionOptions,
        old_txn: &Transaction,
    ) -> (r: Result<Transaction, Error>)
        requires
            old(self).wf(),
            old(self).next_id() < u64::MAX,
        ensures
            r is Ok,
            final(self).wf(),
            final(self).families() == old(self).families(),
            final(self).path_view() == old(self).path_view(),
            final(self).locks() == old(self).locks(),
            final(self).next_id() == old(self).next_id() + 1,
            ({
                let tx = r->Ok_0;
                &&& tx.wf()
                &&& tx.spec_id() == old(self).next_id()
                &&& tx.spec_state() == TxState::Active
                &&& tx.ops() == Seq::<crate::write_batch::OpView>::empty()
                &&& tx.tx_locks().len() == 0
                &&& tx.marks().len() == 0
                &&& crate::transaction::attached(&tx, &*final(self))
            }),
    {
        let _ = old_txn;
        self.begin(write_options, txn_options)
    }

    /// Reads `key` under the given read options. Absence of the key is a
    /// valid empty result, never an error.
    pub fn get_opt(&self, key: &[u8], readopts: &ReadOptions) -> (r: Result<
        Option<DBVector>,
        Error,
    >)
        requires
            self.wf(),
            readopts.wf(),
        ensures
            r is Ok,
            r->Ok_0 is Some <==> default_map_of(self.read_families(readopts)).dom().contains(key@),
            r->Ok_0 is Some ==> r->Ok_0.unwrap()@ == default_map_of(self.read_families(readopts))[key@],
    {
        let got: Option<Vec<u8>> = match readopts.snapshot_families_ref() {
            Some(f) => {
                let di = locate_default(f);
                read_at(f, di, key)
            },
            None => {
                let di = locate_default(&self.cfs);
                read_at(&self.cfs, di, key)
            },
        };
        match got {
            Some(v) => Ok(Some(DBVector::from_vec(v))),
            None => Ok(None),
        }
    }

    /// Reads `key` from the default family's committed state.
    pub fn get(&self, key: &[u8]) -> (r: Result<Option<DBVector>, Error>)
        requires
            self.wf(),
        ensures
            r is Ok,
            r->Ok_0 is Some <==> self.default_map().dom().contains(key@),
            r->Ok_0 is Some ==> r->Ok_0.unwrap()@ == self.default_map()[key@],
    {
        self.get_opt(key, &ReadOptions::default())
    }

    /// Reads `key` in the given column family under the given read options.
    pub fn get_cf_opt(&self, cf: ColumnFamily, key: &[u8], readopts: &ReadOptions) -> (r: Result<
        Option<DBVector>,
        Error,
    >)
        requires
            self.wf(),
            readopts.wf(),
        ensures
            r is Err <==> !cf_valid_in(self.read_families(readopts), cf),
            r matches Err(e) ==> e == Error::InvalidColumnFamily,
            r is Ok ==> (r->Ok_0 is Some <==> family_map_of(
                self.read_families(readopts),
                cf.index as int,
            ).dom().contains(key@)),
            r is Ok && r->Ok_0 is Some ==> r->Ok_0.unwrap()@ == family_map_of(
                self.read_families(readopts),
                cf.index as int,
            )[key@],
    {
        let got: Option<Vec<u8>> = match readopts.snapshot_families_ref() {
            Some(f) => {
                if !(cf.index < f.len() && f[cf.index].alive) {
                    return Err(Error::InvalidColumnFamily);
                }
                read_at(f, cf.index, key)
            },
            None => {
                if !(cf.index < self.cfs.len() && self.cfs[cf.index].alive) {
                    return Err(Error::InvalidColumnFamily);
                }
                read_at(&self.cfs, cf.index, key)
            },
        };
        match got {
            Some(v) => Ok(Some(DBVector::from_vec(v))),
            None => Ok(None),
        }
    }

    /// Reads `key` in the given column family's committed state.
    pub fn get_cf(&self, cf: ColumnFamily, key: &[u8]) -> (r: Result<Option<DBVector>, Error>)
        requires
            self.wf(),
        ensures
            r is Err <==> !self.cf_valid(cf),
            r matches Err(e) ==> e == Error::InvalidColumnFamily,
            r is Ok ==> (r->Ok_0 is Some <==> self.family_map(cf.index as int).dom().contains(
                key@,
            )),
            r is Ok && r->Ok_0 is Some ==> r->Ok_0.unwrap()@ == self.family_map(cf.index as int)[key@],
    {
        self.get_cf_opt(cf, key, &ReadOptions::default())
    }

    /// Commits a batch outside any transaction: every staged operation is
    /// applied as one atomic unit, after acquiring the keys like an implicit
    /// transaction would. A key locked by any transaction refuses the write
    /// with a lock timeout.
    pub fn write_opt(&mut self, batch: WriteBatch, writeopts: &WriteOptions) -> (r: Result<
        (),
        Error,
    >)
        requires
            old(self).wf(),
        ensures
            final(self).wf(),
            final(self).path_view() == old(self).path_view(),
            final(self).locks() == old(self).locks(),
            final(self).next_id() == old(self).next_id(),
            !batch_ok(old(self).families(), batch@) ==> (r matches Err(e) && e
                == Error::InvalidColumnFamily),
            batch_ok(old(self).families(), batch@) && batch_blocked(
                old(self).locks(),
                default_index(old(self).families()),
                batch@,
            ) ==> (r matches Err(e) && e == Error::LockTimeout),
            r is Ok <==> batch_ok(old(self).families(), batch@) && !batch_blocked(
                old(self).locks(),
                default_index(old(self).families()),
                batch@,
            ),
            r is Err ==> final(self).families() == old(self).families(),
            r is Ok ==> family_maps(final(self).families()) == apply_batch(
                family_maps(old(self).families()),
                default_index(old(self).families()),
                batch@,
            ),
            r is Ok ==> same_shape(old(self).families(), final(self).families()),
    {
        let _ = writeopts;
        if !ops_all_valid(&self.cfs, &batch) {
            return Err(Error::InvalidColumnFamily);
        }
        let di = locate_default(&self.cfs);
        proof {
            lemma_default_index(self.cfs@);
        }
        let count = batch.len();
        let mut i: usize = 0;
        while i < count
            invariant
                i <= count,
                count == batch@.len(),
                self == old(self),
                old(self).wf(),
                batch_ok(old(self).families(), batch@),
                di == default_index(old(self).families()),
                forall|j: int|
                    0 <= j < i ==> !any_lock(
                        old(self).locks(),
                        op_target(di as int, #[trigger] batch@[j]),
                        op_key(batch@[j]),
                    ),
            decreases count - i,
        {
            let (t, blocked): (usize, bool) = match batch.op_at(i) {
                crate::write_batch::BatchOp::Put { cf, key, .. } => {
                    let t: usize = match cf {
                        Some(cf) => cf.index,
                        None => di,
                    };
                    (t, self.any_lock_check(t, key.as_slice()))
                },
                crate::write_batch::BatchOp::Merge { cf, key, .. } => {
                    let t: usize = match cf {
                        Some(cf) => cf.index,
                        None => di,
                    };
                    (t, self.any_lock_check(t, key.as_slice()))
                },
                crate::write_batch::BatchOp::Delete { cf, key } => {
                    let t: usize = match cf {
                        Some(cf) => cf.index,
                        None => di,
                    };
                    (t, self.any_lock_check(t, key.as_slice()))
                },
            };
            proof {
                assert(t as int == op_target(di as int, batch@[i as int]));
                assert(blocked == any_lock(old(self).locks(), t as int, op_key(batch@[i as int])));
            }
            if blocked {
                proof {
                    assert(batch_blocked(old(self).locks(), di as int, batch@));
                }
                return Err(Error::LockTimeout);
            }
            i = i + 1;
        }
        apply_ops_to(&mut self.cfs, &batch);
        Ok(())
    }

    /// Commits a batch with default write options.
    pub fn write(&mut self, batch: WriteBatch) -> (r: Result<(), Error>)
        requires
            old(self).wf(),
        ensures
            final(self).wf(),
            final(self).path_view() == old(self).path_view(),
            final(self).locks() == old(self).locks(),
            final(self).next_id() == old(self).next_id(),
            r is Ok <==> batch_ok(old(self).families(), batch@) && !batch_blocked(
                old(self).locks(),
                default_index(old(self).families()),
                batch@,
            ),
            r is Err ==> final(self).families() == old(self).families(),
            r is Ok ==> family_maps(final(self).families()) == apply_batch(
                family_maps(old(self).families()),
                default_index(old(self).families()),
                batch@,
            ),
            r is Ok ==> same_shape(old(self).families(), final(self).families()),
    {
        self.write_opt(batch, &WriteOptions::default())
    }

    /// Commits a batch without the write-ahead log: durability is traded for
    /// throughput, atomicity is kept.
    pub fn write_without_wal(&mut self, batch: WriteBatch) -> (r: Result<(), Error>)
        requires
            old(self).wf(),
        ensures
            final(self).wf(),
            final(self).path_view() == old(self).path_view(),
            final(self).locks() == old(self).locks(),
            final(self).next_id() == old(self).next_id(),
            r is Ok <==> batch_ok(old(self).families(), batch@) && !batch_blocked(
                old(self).locks(),
                default_index(old(self).families()),
                batch@,
            ),
            r is Err ==> final(self).families() == old(self).families(),
            r is Ok ==> family_maps(final(self).families()) == apply_batch(
                family_maps(old(self).families()),
                default_index(old(self).families()),
                batch@,
            ),
            r is Ok ==> same_shape(old(self).families(), final(self).families()),
    {
        let mut wo = WriteOptions::new();
        wo.disable_wal(true);
        self.write_opt(batch, &wo)
    }

    /// Stores `value` under `key` in the default family, outside any
    /// transaction. A key locked by any transaction refuses the write with a
    /// lock timeout.
    pub fn put_opt(&mut self, key: &[u8], value: &[u8], writeopts: &WriteOptions) -> (r: Result<
        (),
        Error,
    >)
        requires
            old(self).wf(),
        ensures
            final(self).wf(),
            final(self).path_view() == old(self).path_view(),
            final(self).locks() == old(self).locks(),
            final(self).next_id() == old(self).next_id(),
            r is Ok <==> !any_lock(
                old(self).locks(),
                default_index(old(self).families()),
                key@,
            ),
            r matches Err(e) ==> e == Error::LockTimeout && final(self).families() == old(
                self,
            ).families(),
            r is Ok ==> final(self).default_map() == old(self).default_map().insert(key@, value@),
            r is Ok ==> updated_at(
                old(self).families(),
                final(self).families(),
                default_index(old(self).families()),
                old(self).default_map().insert(key@, value@),
            ),
    {
        let _ = writeopts;
        let di = locate_default(&self.cfs);
        proof {
            lemma_default_index(self.cfs@);
        }
        if self.any_lock_check(di, key) {
            return Err(Error::LockTimeout);
        }
        put_at(&mut self.cfs, di, key, value);
        Ok(())
    }

    /// Stores `value` under `key` in the given column family, outside any
    /// transaction.
    pub fn put_cf_opt(
        &mut self,
        cf: ColumnFamily,
        key: &[u8],
        value: &[u8],
        writeopts: &WriteOptions,
    ) -> (r: Result<(), Error>)
        requires
            old(self).wf(),
        ensures
            final(self).wf(),
            final(self).path_view() == old(self).path_view(),
            final(self).locks() == old(self).locks(),
            final(self).next_id() == old(self).next_id(),
            r is Ok <==> old(self).cf_valid(cf) && !any_lock(
                old(self).locks(),
                cf.index as int,
                key@,
            ),
            !old(self).cf_valid(cf) ==> (r matches Err(e) && e == Error::InvalidColumnFamily),
            old(self).cf_valid(cf) && any_lock(old(self).locks(), cf.index as int, key@) ==> (
            r matches Err(e) && e == Error::LockTimeout),
            r is Err ==> final(self).families() == old(self).families(),
            r is Ok ==> updated_at(
                old(self).families(),
                final(self).families(),
                cf.index as int,
                old(self).family_map(cf.index as int).insert(key@, value@),
            ),
    {
        let _ = writeopts;
        if !(cf.index < self.cfs.len() && self.cfs[cf.index].alive) {
            return Err(Error::InvalidColumnFamily);
        }
        if self.any_lock_check(cf.index, key) {
            return Err(Error::LockTimeout);
        }
        put_at(&mut self.cfs, cf.index, key, value);
        Ok(())
    }

    /// Merges `value` into the record under `key` in the default family,
    /// outside any transaction.
    pub fn merge_opt(&mut self, key: &[u8], value: &[u8], writeopts: &WriteOptions) -> (r: Result<
        (),
        Error,
    >)
        requires
            old(self).wf(),
        ensures
            final(self).wf(),
            final(self).path_view() == old(self).path_view(),
            final(self).locks() == old(self).locks(),
            final(self).next_id() == old(self).next_id(),
            r is Ok <==> !any_lock(
                old(self).locks(),
                default_index(old(self).families()),
                key@,
            ),
            r matches Err(e) ==> e == Error::LockTimeout && final(self).families() == old(
                self,
            ).families(),
            r is Ok ==> final(self).default_map() == old(self).default_map().insert(
                key@,
                merged_value(old(self).default_map(), key@, value@),
            ),
    {
        let _ = writeopts;
        let di = locate_default(&self.cfs);
        proof {
            lemma_default_index(self.cfs@);
        }
        if self.any_lock_check(di, key) {
            return Err(Error::LockTimeout);
        }
        merge_at(&mut self.cfs, di, key, value);
        Ok(())
    }

    /// Removes the record under `key` from the default family, outside any
    /// transaction.
    pub fn delete_opt(&mut self, key: &[u8], writeopts: &WriteOptions) -> (r: Result<(), Error>)
        requires
            old(self).wf(),
        ensures
            final(self).wf(),
            final(self).path_view() == old(self).path_view(),
            final(self).locks() == old(self).locks(),
            final(self).next_id() == old(self).next_id(),
            r is Ok <==> !any_lock(
                old(self).locks(),
                default_index(old(self).families()),
                key@,
            ),
            r matches Err(e) ==> e == Error::LockTimeout && final(self).families() == old(
                self,
            ).families(),
            r is Ok ==> final(self).default_map() == old(self).default_map().remove(key@),
    {
        let _ = writeopts;
        let di = locate_default(&self.cfs);
        proof {
            lemma_default_index(self.cfs@);
        }
        if self.any_lock_check(di, key) {
            return Err(Error::LockTimeout);
        }
        delete_at(&mut self.cfs, di, key);
        Ok(())
    }

    /// Removes the record under `key` from the given column family, outside
    /// any transaction.
    pub fn delete_cf_opt(&mut self, cf: ColumnFamily, key: &[u8], writeopts: &WriteOptions) -> (r:
        Result<(), Error>)
        requires
            old(self).wf(),
        ensures
            final(self).wf(),
            final(self).path_view() == old(self).path_view(),
            final(self).locks() == old(self).locks(),
            final(self).next_id() == old(self).next_id(),
            r is Ok <==> old(self).cf_valid(cf) && !any_lock(
                old(self).locks(),
                cf.index as int,
                key@,
            ),
            !old(self).cf_valid(cf) ==> (r matches Err(e) && e == Error::InvalidColumnFamily),
            old(self).cf_valid(cf) && any_lock(old(self).locks(), cf.index as int, key@) ==> (
            r matches Err(e) && e == Error::LockTimeout),
            r is Err ==> final(self).families() == old(self).families(),
            r is Ok ==> updated_at(
                old(self).families(),
                final(self).families(),
                cf.index as int,
                old(self).family_map(cf.index as int).remove(key@),
            ),
    {
        let _ = writeopts;
        if !(cf.index < self.cfs.len() && self.cfs[cf.index].alive) {
            return Err(Error::InvalidColumnFamily);
        }
        if self.any_lock_check(cf.index, key) {
            return Err(Error::LockTimeout);
        }
        delete_at(&mut self.cfs, cf.index, key);
        Ok(())
    }

    /// Stores `value` under `key` in the default family, outside any
    /// transaction.
    pub fn put(&mut self, key: &[u8], value: &[u8]) -> (r: Result<(), Error>)
        requires
            old(self).wf(),
        ensures
            final(self).wf(),
            final(self).path_view() == old(self).path_view(),
            final(self).locks() == old(self).locks(),
            final(self).next_id() == old(self).next_id(),
            r is Ok <==> !any_lock(
                old(self).locks(),
                default_index(old(self).families()),
                key@,
            ),
            r matches Err(e) ==> e == Error::LockTimeout && final(self).families() == old(
                self,
            ).families(),
            r is Ok ==> final(self).default_map() == old(self).default_map().insert(key@, value@),
    {
        self.put_opt(key, value, &WriteOptions::default())
    }

    /// Stores `value` under `key` in the given column family, outside any
    /// transaction.
    pub fn put_cf(&mut self, cf: ColumnFamily, key: &[u8], value: &[u8]) -> (r: Result<(), Error>)
        requires
            old(self).wf(),
        ensures
            final(self).wf(),
            final(self).path_view() == old(self).path_view(),
            final(self).locks() == old(self).locks(),
            final(self).next_id() == old(self).next_id(),
            r is Ok <==> old(self).cf_valid(cf) && !any_lock(
                old(self).locks(),
                cf.index as int,
                key@,
            ),
            r is Err ==> final(self).families() == old(self).families(),
            r is Ok ==> updated_at(
                old(self).families(),
                final(self).families(),
                cf.index as int,
                old(self).family_map(cf.index as int).insert(key@, value@),
            ),
    {
        self.put_cf_opt(cf, key, value, &WriteOptions::default())
    }

    /// Merges `value` into the record under `key` in the default family,
    /// outside any transaction.
    pub fn merge(&mut self, key: &[u8], value: &[u8]) -> (r: Result<(), Error>)
        requires
            old(self).wf(),
        ensures
            final(self).wf(),
            final(self).path_view() == old(self).path_view(),
            final(self).locks() == old(self).locks(),
            final(self).next_id() == old(self).next_id(),
            r is Ok <==> !any_lock(
                old(self).locks(),
                default_index(old(self).families()),
                key@,
            ),
            r matches Err(e) ==> e == Error::LockTimeout && final(self).families() == old(
                self,
            ).families(),
            r is Ok ==> final(self).default_map() == old(self).default_map().insert(
                key@,
                merged_value(old(self).default_map(), key@, value@),
            ),
    {
        self.merge_opt(key, value, &WriteOptions::default())
    }

    /// Removes the record under `key` from the default family, outside any
    /// transaction.
    pub fn delete(&mut self, key: &[u8]) -> (r: Result<(), Error>)
        requires
            old(self).wf(),
        ensures
            final(self).wf(),
            final(self).path_view() == old(self).path_view(),
            final(self).locks() == old(self).locks(),
            final(self).next_id() == old(self).next_id(),
            r is Ok <==> !any_lock(
                old(self).locks(),
                default_index(old(self).families()),
                key@,
            ),
            r matches Err(e) ==> e == Error::LockTimeout && final(self).families() == old(
                self,
            ).families(),
            r is Ok ==> final(self).default_map() == old(self).default_map().remove(key@),
    {
        self.delete_opt(key, &WriteOptions::default())
    }

    /// Removes the record under `key` from the given column family, outside
    /// any transaction.
    pub fn delete_cf(&mut self, cf: ColumnFamily, key: &[u8]) -> (r: Result<(), Error>)
        requires
            old(self).wf(),
        ensures
            final(self).wf(),
            final(self).path_view() == old(self).path_view(),
            final(self).locks() == old(self).locks(),
            final(self).next_id() == old(self).next_id(),
            r is Ok <==> old(self).cf_valid(cf) && !any_lock(
                old(self).locks(),
                cf.index as int,
                key@,
            ),
            r is Err ==> final(self).families() == old(self).families(),
            r is Ok ==> updated_at(
                old(self).families(),
                final(self).families(),
                cf.index as int,
                old(self).family_map(cf.index as int).remove(key@),
            ),
    {
        self.delete_cf_opt(cf, key, &WriteOptions::default())
    }

    /// Creates a new column family.
    pub fn create_cf(&mut self, name: &str, opts: &Options) -> (r: Result<ColumnFamily, Error>)
        requires
            old(self).wf(),
        ensures
            final(self).wf(),
            final(self).path_view() == old(self).path_view(),
            final(self).locks() == old(self).locks(),
            final(self).next_id() == old(self).next_id(),
            r is Ok <==> !has_nul(name.spec_bytes()) && !name_live_in(
                old(self).families(),
                name@,
            ),
            has_nul(name.spec_bytes()) ==> (r matches Err(e) && e == Error::PathEncodingError),
            !has_nul(name.spec_bytes()) && name_live_in(old(self).families(), name@)
                ==> (r matches Err(e) && e == Error::InvalidArgument),
            r is Err ==> final(self).families() == old(self).families(),
            r matches Ok(cf) ==> {
                &&& cf.index == old(self).families().len()
                &&& final(self).families().len() == old(self).families().len() + 1
                &&& forall|i: int|
                    0 <= i < old(self).families().len() ==> final(self).families()[i] == old(
                        self,
                    ).families()[i]
                &&& final(self).families().last().name@ == name@
                &&& final(self).families().last().alive
                &&& final(self).families().last().space@ == Seq::<(Seq<u8>, Seq<u8>)>::empty()
            },
    {
        let _ = opts;
        if contains_nul(name.as_bytes()) {
            return Err(Error::PathEncodingError);
        }
        match find_family(&self.cfs, name) {
            Some(_) => Err(Error::InvalidArgument),
            None => {
                let idx = self.cfs.len();
                let rec = FamilyRecord { name: name.to_owned(), alive: true, space: KeySpace::new() };
                self.cfs.push(rec);
                proof {
                    let a = old(self).families();
                    let b = self.families();
                    assert(crate::registry::default_exists(b)) by {
                        lemma_default_index(a);
                        let d = default_index(a);
                        assert(b[d].alive && b[d].name@ == spec_default_name());
                    }
                    assert forall|x: int, y: int|
                        0 <= x < y < b.len() && b[x].alive && b[y].alive implies b[x].name@
                        != b[y].name@ by {
                        if y < a.len() {
                        } else {
                            assert(b[y].name@ == name@);
                            assert(!(a[x].alive && a[x].name@ == name@));
                        }
                    }
                }
                Ok(ColumnFamily { index: idx })
            },
        }
    }

    /// An iterator over the default family's committed state, started per
    /// `mode`.
    pub fn iterator(&self, mode: IteratorMode) -> (r: TransactionDBIterator)
        requires
            self.wf(),
        ensures
            r.wf(),
            r.entries() == cursor_entries(
                self.families(),
                default_index(self.families()),
                None::<Seq<u8>>,
                None,
            ),
            mode is Start ==> r.stream() == r.entries(),
            mode is End ==> r.stream() == r.entries().reverse(),
            mode matches IteratorMode::From(k, d) ==> {
                &&& (d is Forward ==> r.stream() == r.entries().skip(
                    crate::keyspace::lb(r.entries(), k@),
                ))
                &&& (d is Reverse ==> r.stream() == r.entries().take(
                    crate::keyspace::ub(r.entries(), k@),
                ).reverse())
            },
    {
        let opts = ReadOptions::default();
        DBIterator::from_families(&self.cfs, &opts, mode)
    }

    /// An iterator in total-order traversal; the model always traverses in
    /// total order, so it behaves as `iterator`.
    pub fn full_iterator(&self, mode: IteratorMode) -> (r: TransactionDBIterator)
        requires
            self.wf(),
        ensures
            r.wf(),
            r.entries() == cursor_entries(
                self.families(),
                default_index(self.families()),
                None::<Seq<u8>>,
                None,
            ),
            mode is Start ==> r.stream() == r.entries(),
            mode is End ==> r.stream() == r.entries().reverse(),
    {
        let mut opts = ReadOptions::default();
        opts.set_total_order_seek(true);
        DBIterator::from_families(&self.cfs, &opts, mode)
    }

    /// A forward iterator constrained to the keys sharing `prefix`.
    pub fn prefix_iterator(&self, prefix: &[u8]) -> (r: TransactionDBIterator)
        requires
            self.wf(),
        ensures
            r.wf(),
            r.entries() == cursor_entries(
                self.families(),
                default_index(self.families()),
                Some(prefix@),
                None,
            ),
            r.stream() == r.entries(),
    {
        let mut opts = ReadOptions::default();
        opts.set_prefix_same_as_start(true);
        let it = DBIterator::from_families(&self.cfs, &opts, IteratorMode::From(
            prefix,
            Direction::Forward,
        ));
        proof {
            let es = it.entries();
            if es.len() > 0 {
                lemma_default_index(self.families());
                Seq::lemma_filter_pred(
                    self.families()[default_index(self.families())].space@,
                    crate::keyspace::within_pred(Some(prefix@), None),
                    0,
                );
                crate::keyspace::lemma_is_prefix_le(prefix@, es[0].0);
                crate::order::lemma_lex_trichotomy(es[0].0, prefix@);
            }
            assert(crate::keyspace::lb(es, prefix@) == 0);
            assert(es.skip(0) =~= es);
        }
        it
    }

    /// A raw cursor over the default family's committed state, born
    /// `Invalid`.
    pub fn raw_iterator(&self) -> (r: TransactionDBRawIterator)
        requires
            self.wf(),
        ensures
            r.wf(),
            !r.is_positioned(),
            r.entries() == cursor_entries(
                self.families(),
                default_index(self.families()),
                None,
                None,
            ),
    {
        let d = locate_default(&self.cfs);
        proof {
            lemma_default_index(self.cfs@);
        }
        DBRawIterator::from_family(&self.cfs, d, None, None)
    }

    /// Applies a transaction's staged batch to the committed state, as one
    /// atomic unit. The caller holds the needed locks; the table itself is
    /// untouched.
    pub(crate) fn apply_staged(&mut self, batch: &WriteBatch)
        requires
            old(self).wf(),
            batch_ok(old(self).families(), batch@),
        ensures
            final(self).wf(),
            final(self).path_view() == old(self).path_view(),
            final(self).locks() == old(self).locks(),
            final(self).next_id() == old(self).next_id(),
            same_shape(old(self).families(), final(self).families()),
            default_index(final(self).families()) == default_index(old(self).families()),
            family_maps(final(self).families()) == apply_batch(
                family_maps(old(self).families()),
                default_index(old(self).families()),
                batch@,
            ),
    {
        apply_ops_to(&mut self.cfs, batch);
    }

    /// Whether granting `id` a lock on the key at the given level would
    /// conflict with another transaction's lock.
    pub(crate) fn conflict_check(&self, id: u64, cf: usize, key: &[u8], excl: bool) -> (r: bool)
        ensures
            r == lock_conflict(self.locks(), id, cf as int, key@, excl),
    {
        let n = self.locks.len();
        let mut i: usize = 0;
        while i < n
            invariant
                i <= n,
                n == self.locks@.len(),
                forall|j: int|
                    0 <= j < i ==> !(covers(#[trigger] self.locks@[j], cf as int, key@)
                        && self.locks@[j].owner != id && (self.locks@[j].exclusive || excl)),
            decreases n - i,
        {
            let e = &self.locks[i];
            if e.cf == cf && compare_keys(e.key.as_slice(), key) == KeyOrder::Equal && e.owner != id
                && (e.exclusive || excl) {
                return true;
            }
            i = i + 1;
        }
        false
    }

    /// Whether any transaction holds a lock on the key.
    pub(crate) fn any_lock_check(&self, cf: usize, key: &[u8]) -> (r: bool)
        ensures
            r == any_lock(self.locks(), cf as int, key@),
    {
        let n = self.locks.len();
        let mut i: usize = 0;
        while i < n
            invariant
                i <= n,
                n == self.locks@.len(),
                forall|j: int| 0 <= j < i ==> !covers(#[trigger] self.locks@[j], cf as int, key@),
            decreases n - i,
        {
            let e = &self.locks[i];
            if e.cf == cf && compare_keys(e.key.as_slice(), key) == KeyOrder::Equal {
                return true;
            }
            i = i + 1;
        }
        false
    }

    /// Grants `id` a fresh lock on the key. The caller has checked that no
    /// conflicting lock is held and that `id` holds no lock on the key yet.
    pub(crate) fn push_lock(&mut self, id: u64, cf: usize, key: &[u8], excl: bool)
        requires
            old(self).wf(),
            id < old(self).next_id(),
            !lock_conflict(old(self).locks(), id, cf as int, key@, excl),
            !holds_lock(old(self).locks(), id, cf as int, key@, false),
        ensures
            final(self).wf(),
            final(self).families() == old(self).families(),
            final(self).path_view() == old(self).path_view(),
            final(self).next_id() == old(self).next_id(),
            final(self).locks().len() == old(self).locks().len() + 1,
            final(self).locks().drop_last() == old(self).locks(),
            covers(final(self).locks().last(), cf as int, key@),
            final(self).locks().last().owner == id,
            final(self).locks().last().exclusive == excl,
            holds_lock(final(self).locks(), id, cf as int, key@, excl),
            same_foreign_locks(old(self).locks(), final(self).locks(), id),
    {
        let e = LockEntry { cf, key: crate::keyspace::copy_bytes(key), owner: id, exclusive: excl };
        proof {
            lemma_filter_push_dropped(self.locks@, e, foreign_pred(id));
        }
        self.locks.push(e);
        proof {
            let a = old(self).locks();
            let b = self.locks();
            assert(b.drop_last() =~= a);
            let w = b.len() - 1;
            assert(covers(b[w], cf as int, key@) && b[w].owner == id && (b[w].exclusive || !excl));
            assert forall|i: int, j: int|
                0 <= i < j < b.len() implies !((#[trigger] b[i]).cf == (#[trigger] b[j]).cf
                && b[i].key@ == b[j].key@ && b[i].owner == b[j].owner) by {
                if j == w {
                    if b[i].cf == cf && b[i].key@ == key@ && b[i].owner == id {
                        assert(covers(a[i], cf as int, key@) && a[i].owner == id && (a[i].exclusive
                            || !false));
                    }
                }
            }
            assert forall|i: int, j: int|
                0 <= i < b.len() && 0 <= j < b.len() && i != j && (#[trigger] b[i]).cf == (
            #[trigger] b[j]).cf && b[i].key@ == b[j].key@ implies !b[i].exclusive
                && !b[j].exclusive by {
                if i == w || j == w {
                    let o: int = if i == w {
                        j
                    } else {
                        i
                    };
                    assert(covers(a[o], cf as int, key@));
                    if a[o].owner == id {
                        assert(holds_lock(a, id, cf as int, key@, false));
                    } else {
                        if excl || a[o].exclusive {
                            assert(lock_conflict(a, id, cf as int, key@, excl));
                        }
                    }
                }
            }
        }
    }

    /// Releases the lock `id` holds on the key. The caller has checked that
    /// one is held.
    pub(crate) fn remove_own_lock(&mut self, id: u64, cf: usize, key: &[u8])
        requires
            old(self).wf(),
            holds_lock(old(self).locks(), id, cf as int, key@, false),
        ensures
            final(self).wf(),
            final(self).families() == old(self).families(),
            final(self).path_view() == old(self).path_view(),
            final(self).next_id() == old(self).next_id(),
            final(self).locks() == old(self).locks().remove(
                own_lock_index(old(self).locks(), id, cf as int, key@),
            ),
            !holds_lock(final(self).locks(), id, cf as int, key@, false),
            same_foreign_locks(old(self).locks(), final(self).locks(), id),
    {
        let ghost p = own_lock_index(old(self).locks(), id, cf as int, key@);
        proof {
            assert(0 <= p < self.locks@.len() && covers(self.locks@[p], cf as int, key@)
                && self.locks@[p].owner == id);
        }
        let n = self.locks.len();
        let mut i: usize = 0;
        while i < n
            invariant
                i <= n,
                self == old(self),
                old(self).wf(),
                p == own_lock_index(old(self).locks(), id, cf as int, key@),
                n == self.locks@.len(),
                0 <= p < n,
                covers(self.locks@[p], cf as int, key@),
                self.locks@[p].owner == id,
                locks_wf(self.locks@, self.next_tx_id),
                forall|j: int|
                    0 <= j < i ==> !(covers(#[trigger] self.locks@[j], cf as int, key@)
                        && self.locks@[j].owner == id),
            decreases n - i,
        {
            let e = &self.locks[i];
            if e.cf == cf && compare_keys(e.key.as_slice(), key) == KeyOrder::Equal && e.owner
                == id {
                proof {
                    assert(i as int == p);
                    lemma_filter_remove_dropped(self.locks@, p, foreign_pred(id));
                }
                self.locks.remove(i);
                proof {
                    let a = old(self).locks();
                    let b = self.locks();
                    assert forall|x: int, y: int|
                        0 <= x < y < b.len() implies !((#[trigger] b[x]).cf == (#[trigger] b[y]).cf
                        && b[x].key@ == b[y].key@ && b[x].owner == b[y].owner) by {
                        let ox: int = if x < p {
                            x
                        } else {
                            x + 1
                        };
                        let oy: int = if y < p {
                            y
                        } else {
                            y + 1
                        };
                        assert(b[x] == a[ox] && b[y] == a[oy]);
                    }
                    assert forall|x: int, y: int|
                        0 <= x < b.len() && 0 <= y < b.len() && x != y && (#[trigger] b[x]).cf == (
                    #[trigger] b[y]).cf && b[x].key@ == b[y].key@ implies !b[x].exclusive
                        && !b[y].exclusive by {
                        let ox: int = if x < p {
                            x
                        } else {
                            x + 1
                        };
                        let oy: int = if y < p {
                            y
                        } else {
                            y + 1
                        };
                        assert(b[x] == a[ox] && b[y] == a[oy]);
                    }
                    assert forall|x: int| 0 <= x < b.len() implies (#[trigger] b[x]).owner < self.next_tx_id by {
                        let ox: int = if x < p {
                            x
                        } else {
                            x + 1
                        };
                        assert(b[x] == a[ox]);
                    }
                    assert forall|x: int|
                        0 <= x < b.len() implies !(covers(#[trigger] b[x], cf as int, key@)
                        && b[x].owner == id) by {
                        let ox: int = if x < p {
                            x
                        } else {
                            x + 1
                        };
                        assert(b[x] == a[ox]);
                        if covers(a[ox], cf as int, key@) && a[ox].owner == id {
                            assert(!(a[ox].cf == a[p].cf && a[ox].key@ == a[p].key@ && a[ox].owner
                                == a[p].owner));
                        }
                    }
                }
                return ;
            }
            i = i + 1;
        }
        proof {
            assert(!(covers(self.locks@[p], cf as int, key@) && self.locks@[p].owner == id));
            assert(false);
        }
    }
}

/// While one transaction holds an exclusive lock on a key, every request for
/// that key by another transaction conflicts, shared and exclusive alike: the
/// second requester blocks until the holder ends, or times out.
pub proof fn lemma_exclusive_excludes(locks: Seq<LockEntry>, id1: u64, id2: u64, cf: int, key: Seq<u8>)
    requires
        holds_lock(locks, id1, cf, key, true),
        id1 != id2,
    ensures
        lock_conflict(locks, id2, cf, key, true),
        lock_conflict(locks, id2, cf, key, false),
{
    let i = choose|i: int|
        0 <= i < locks.len() && covers(#[trigger] locks[i], cf, key) && locks[i].owner == id1 && (
        locks[i].exclusive || !true);
    assert(0 <= i < locks.len() && covers(locks[i], cf, key) && locks[i].owner != id2
        && locks[i].exclusive);
}

/// Once the holder has ended — its locks released, everyone else's kept — a
/// key only it had locked is free, and a second transaction's request no
/// longer conflicts.
pub proof fn lemma_release_unblocks(
    before: Seq<LockEntry>,
    after: Seq<LockEntry>,
    id1: u64,
    id2: u64,
    cf: int,
    key: Seq<u8>,
)
    requires
        same_foreign_locks(before, after, id1),
        forall|i: int| 0 <= i < after.len() ==> (#[trigger] after[i]).owner != id1,
        forall|i: int|
            0 <= i < before.len() && covers(#[trigger] before[i], cf, key) ==> before[i].owner
                == id1,
    ensures
        !any_lock(after, cf, key),
        !lock_conflict(after, id2, cf, key, true),
        !lock_conflict(after, id2, cf, key, false),
{
    let pred = foreign_pred(id1);
    assert forall|i: int| 0 <= i < after.len() implies !covers(#[trigger] after[i], cf, key) by {
        assert(pred(after[i]));
        Seq::lemma_filter_contains(after, pred, i);
        assert(after.filter(pred).contains(after[i]));
        let j = choose|j: int|
            0 <= j < after.filter(pred).len() && after.filter(pred)[j] == after[i];
        lemma_filter_element_of(before, pred);
        assert(before.filter(pred)[j] == after[i]);
        let l = choose|l: int| 0 <= l < before.len() && before.filter(pred)[j] == before[l];
        assert(after[i] == before[l]);
        if covers(after[i], cf, key) {
            assert(covers(before[l], cf, key));
            assert(before[l].owner == id1);
        }
    }
}

} // verus!
