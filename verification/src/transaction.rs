//! Pessimistic transactions: locked reads, staged mutations, savepoints.
//!
//! A transaction is begun on a transaction database, stages its mutations in
//! a private batch, and acquires locks in the database's shared table before
//! reading a key for update or staging a write to it. Committing applies the
//! staged batch as one atomic unit and releases every lock; rolling back
//! discards the batch and releases every lock; a savepoint marks a point the
//! transaction can roll back to while staying active. A transaction is
//! single-use: after commit, rollback or destroy no further operation is
//! valid, and each is refused as an invalid argument.
//!
//! Every transaction method that touches the database takes the owning
//! handle, so that the shared lock table and the staged state move together;
//! `attached` says exactly how they correspond.

use vstd::prelude::*;

use crate::column_family::ColumnFamily;
use crate::dbvector::DBVector;
use crate::error::Error;
use crate::iterator::DBIterator;
use crate::read_options::ReadOptions;
use crate::registry::FamilyRecord;
use crate::registry::default_index;
use crate::registry::duplicate_families;
use crate::registry::family_maps;
use crate::registry::lemma_default_index;
use crate::registry::lemma_default_index_stable;
use crate::registry::locate_default;
use crate::registry::read_at;
use crate::registry::registry_wf;
use crate::snapshot_transaction::TransactionSnapshot;
use crate::transaction_db::LockEntry;
use crate::transaction_db::TransactionDB;
use crate::transaction_db::TransactionDBIterator;
use crate::transaction_db::holds_lock;
use crate::transaction_db::lock_conflict;
use crate::transaction_db::same_foreign_locks;
use crate::write_batch::WriteBatch;
use crate::write_batch::apply_batch;
use crate::write_batch::batch_ok;
use crate::write_batch::OpView;

verus! {

/// The lifecycle of a transaction: active, then exactly one terminal state.
#[derive(Clone, Copy, Debug, PartialEq, Eq, Structural)]
pub enum TxState {
    Active,
    Committed,
    RolledBack,
    Destroyed,
}

/// One lock this transaction holds, in acquisition order.
pub struct TxLock {
    pub cf: usize,
    pub key: Vec<u8>,
    pub exclusive: bool,
}

/// The table entry `id` holds matches this transaction-side lock exactly.
pub open spec fn holds_exact(locks: Seq<LockEntry>, id: u64, l: TxLock) -> bool {
    exists|i: int|
        0 <= i < locks.len() && (#[trigger] locks[i]).cf == l.cf && locks[i].key@ == l.key@
            && locks[i].owner == id && locks[i].exclusive == l.exclusive
}

/// The transaction-side list knows the table entry.
pub open spec fn lock_known(tls: Seq<TxLock>, e: LockEntry) -> bool {
    exists|j: int|
        0 <= j < tls.len() && (#[trigger] tls[j]).cf == e.cf && tls[j].key@ == e.key@
            && tls[j].exclusive == e.exclusive
}

/// A pessimistic transaction.
pub struct Transaction {
    id: u64,
    state: TxState,
    batch: WriteBatch,
    locks: Vec<TxLock>,
    savepoints: Vec<(usize, usize)>,
}

impl Transaction {
    /// The id the owning database granted this transaction.
    pub closed spec fn spec_id(&self) -> u64 {
        self.id
    }

    /// Where the transaction stands in its lifecycle.
    pub closed spec fn spec_state(&self) -> TxState {
        self.state
    }

    /// The staged mutations, in order.
    pub closed spec fn ops(&self) -> Seq<OpView> {
        self.batch@
    }

    /// The locks held, in acquisition order.
    pub closed spec fn tx_locks(&self) -> Seq<TxLock> {
        self.locks@
    }

    /// The savepoint stack: how many operations and locks each mark keeps.
    pub closed spec fn marks(&self) -> Seq<(usize, usize)> {
        self.savepoints@
    }

    /// The transaction's own bookkeeping is consistent: marks stay within
    /// bounds and in order, at most one lock per key is listed, and a
    /// finished transaction holds nothing.
    pub open spec fn wf(&self) -> bool {
        &&& forall|i: int|
            0 <= i < self.marks().len() ==> (#[trigger] self.marks()[i]).0 <= self.ops().len()
                && self.marks()[i].1 <= self.tx_locks().len()
        &&& forall|i: int, j: int|
            0 <= i < j < self.marks().len() ==> (#[trigger] self.marks()[i]).0
                <= (#[trigger] self.marks()[j]).0 && self.marks()[i].1 <= self.marks()[j].1
        &&& forall|i: int, j: int|
            0 <= i < j < self.tx_locks().len() ==> !((#[trigger] self.tx_locks()[i]).cf == (
            #[trigger] self.tx_locks()[j]).cf && self.tx_locks()[i].key@
                == self.tx_locks()[j].key@)
        &&& self.spec_state() != TxState::Active ==> self.tx_locks().len() == 0
            && self.marks().len() == 0
    }

    /// A transaction just granted by its database: active and empty-handed.
    pub(crate) fn fresh(id: u64) -> (t: Transaction)
        ensures
            t.wf(),
            t.spec_id() == id,
            t.spec_state() == TxState::Active,
            t.ops() == Seq::<OpView>::empty(),
            t.tx_locks() == Seq::<TxLock>::empty(),
            t.marks() == Seq::<(usize, usize)>::empty(),
    {
        let t = Transaction {
            id,
            state: TxState::Active,
            batch: WriteBatch::new(),
            locks: Vec::new(),
            savepoints: Vec::new(),
        };
        proof {
            assert(t.tx_locks() =~= Seq::<TxLock>::empty());
            assert(t.marks() =~= Seq::<(usize, usize)>::empty());
        }
        t
    }
}

/// The transaction belongs to this database: its id has been granted, its
/// staged batch names only live families, and its lock list is exactly what
/// the shared table holds for it.
pub open spec fn attached(tx: &Transaction, db: &TransactionDB) -> bool {
    &&& tx.spec_id() < db.next_id()
    &&& batch_ok(db.families(), tx.ops())
    &&& forall|i: int|
        0 <= i < tx.tx_locks().len() ==> holds_exact(
            db.locks(),
            tx.spec_id(),
            #[trigger] tx.tx_locks()[i],
        )
    &&& forall|i: int|
        0 <= i < db.locks().len() && (#[trigger] db.locks()[i]).owner == tx.spec_id()
            ==> lock_known(tx.tx_locks(), db.locks()[i])
}

/// Savepoint rollback restores the staged batch exactly: whatever was staged
/// after the mark is undone, whatever came before stays. With a mark taken
/// between two stagings, rolling back keeps the first staged run and drops
/// the second, and `rollback_to_savepoint`'s contract keeps the transaction
/// active.
pub proof fn lemma_savepoint_restores(ops: Seq<OpView>, more: Seq<OpView>)
    ensures
        (ops + more).take(ops.len() as int) == ops,
{
    assert((ops + more).take(ops.len() as int) =~= ops);
}

/// The current state a transaction reads: the committed family maps with the
/// staged batch applied over them.
pub open spec fn overlay_maps(db: &TransactionDB, tx: &Transaction) -> Seq<Map<Seq<u8>, Seq<u8>>> {
    apply_batch(family_maps(db.families()), default_index(db.families()), tx.ops())
}

/// The committed families with the staged batch applied over them, as an
/// independent copy.
fn overlay_families(db: &TransactionDB, batch: &WriteBatch) -> (r: Vec<FamilyRecord>)
    requires
        db.wf(),
        batch_ok(db.families(), batch@),
    ensures
        registry_wf(r@),
        crate::registry::same_shape(db.families(), r@),
        default_index(r@) == default_index(db.families()),
        family_maps(r@) == apply_batch(
            family_maps(db.families()),
            default_index(db.families()),
            batch@,
        ),
{
    let mut fams = duplicate_families(db.families_ref());
    proof {
        crate::registry::lemma_same_families_wf(db.families(), fams@);
        crate::snapshot::lemma_same_families_maps(db.families(), fams@);
        assert(family_maps(fams@) =~= family_maps(db.families()));
        assert(crate::registry::same_shape(db.families(), fams@)) by {
            assert forall|i: int|
                0 <= i < db.families().len() implies (#[trigger] fams@[i]).name@
                == db.families()[i].name@ && fams@[i].alive == db.families()[i].alive by {
                assert(crate::registry::family_like(db.families()[i], fams@[i]));
            }
        }
        lemma_default_index_stable(db.families(), fams@);
        assert(batch_ok(fams@, batch@)) by {
            assert forall|i: int|
                0 <= i < batch@.len() implies crate::write_batch::op_ok(
                fams@,
                #[trigger] batch@[i],
            ) by {
                assert(crate::write_batch::op_ok(db.families(), batch@[i]));
                match crate::write_batch::op_cf(batch@[i]) {
                    Some(cf) => {
                        assert(crate::registry::family_like(
                            db.families()[cf.index as int],
                            fams@[cf.index as int],
                        ));
                    },
                    None => {},
                }
            }
        }
    }
    crate::write_batch::apply_ops_to(&mut fams, batch);
    fams
}

/// Reads `key` in family `t` of the committed state with the staged batch
/// applied over it.
fn overlay_read(db: &TransactionDB, batch: &WriteBatch, t: usize, key: &[u8]) -> (r: Option<
    Vec<u8>,
>)
    requires
        db.wf(),
        batch_ok(db.families(), batch@),
        t < db.families().len(),
    ensures
        ({
            let ms = apply_batch(
                family_maps(db.families()),
                default_index(db.families()),
                batch@,
            );
            &&& (r is Some <==> ms[t as int].dom().contains(key@))
            &&& (r is Some ==> r.unwrap()@ == ms[t as int][key@])
        }),
{
    let fams = overlay_families(db, batch);
    read_at(&fams, t, key)
}

impl Transaction {
    /// The position of the lock this transaction holds on the key, in its
    /// own list.
    fn find_tx_lock(&self, cf: usize, key: &[u8]) -> (r: Option<usize>)
        ensures
            match r {
                Some(j) => j < self.tx_locks().len() && self.tx_locks()[j as int].cf == cf
                    && self.tx_locks()[j as int].key@ == key@,
                None => forall|j: int|
                    0 <= j < self.tx_locks().len() ==> !((#[trigger] self.tx_locks()[j]).cf == cf
                        && self.tx_locks()[j].key@ == key@),
            },
    {
        let n = self.locks.len();
        let mut i: usize = 0;
        while i < n
            invariant
                i <= n,
                n == self.locks@.len(),
                forall|j: int|
                    0 <= j < i ==> !((#[trigger] self.locks@[j]).cf == cf && self.locks@[j].key@
                        == key@),
            decreases n - i,
        {
            let l = &self.locks[i];
            if l.cf == cf && crate::order::compare_keys(l.key.as_slice(), key)
                == crate::order::KeyOrder::Equal {
                return Some(i);
            }
            i = i + 1;
        }
        None
    }

    /// Acquires (or upgrades to) a lock on the key for this transaction. The
    /// caller has checked that no conflicting lock is held.
    #[verifier::rlimit(100)]
    #[verifier::spinoff_prover]
    fn acquire(&mut self, db: &mut TransactionDB, cf: usize, key: &[u8], excl: bool)
        requires
            old(self).wf(),
            old(db).wf(),
            attached(old(self), old(db)),
            old(self).spec_state() == TxState::Active,
            !lock_conflict(old(db).locks(), old(self).spec_id(), cf as int, key@, excl),
        ensures
            final(self).wf(),
            final(db).wf(),
            attached(final(self), final(db)),
            holds_lock(final(db).locks(), old(self).spec_id(), cf as int, key@, excl),
            same_foreign_locks(old(db).locks(), final(db).locks(), old(self).spec_id()),
            final(db).families() == old(db).families(),
            final(db).path_view() == old(db).path_view(),
            final(db).next_id() == old(db).next_id(),
            final(self).spec_id() == old(self).spec_id(),
            final(self).spec_state() == old(self).spec_state(),
            final(self).ops() == old(self).ops(),
            final(self).marks() == old(self).marks(),
            final(self).tx_locks().len() >= old(self).tx_locks().len(),
    {
        let id = self.id;
        let ghost a_tx = self.locks@;
        let ghost a_db = db.locks();
        match self.find_tx_lock(cf, key) {
            Some(j) => {
                if self.locks[j].exclusive || !excl {
                    proof {
                        assert(holds_exact(db.locks(), id, self.locks@[j as int]));
                        let w = choose|w: int|
                            0 <= w < db.locks().len() && (#[trigger] db.locks()[w]).cf
                                == self.locks@[j as int].cf && db.locks()[w].key@
                                == self.locks@[j as int].key@ && db.locks()[w].owner == id
                                && db.locks()[w].exclusive == self.locks@[j as int].exclusive;
                        assert(crate::transaction_db::covers(db.locks()[w], cf as int, key@));
                        assert(self.wf());
                    }
                } else {
                    // upgrade: replace the shared lock with an exclusive one
                    db.remove_own_lock(id, cf, key);
                    let ghost b_db = db.locks();
                    let ghost p = crate::transaction_db::own_lock_index(
                        a_db,
                        id,
                        cf as int,
                        key@,
                    );
                    proof {
                        assert(b_db == a_db.remove(p));
                        assert(0 <= p < a_db.len() && crate::transaction_db::covers(
                            a_db[p],
                            cf as int,
                            key@,
                        ) && a_db[p].owner == id);
                        assert(!lock_conflict(b_db, id, cf as int, key@, true)) by {
                            if lock_conflict(b_db, id, cf as int, key@, true) {
                                let w = choose|w: int|
                                    0 <= w < b_db.len() && crate::transaction_db::covers(
                                        #[trigger] b_db[w],
                                        cf as int,
                                        key@,
                                    ) && b_db[w].owner != id && (b_db[w].exclusive || true);
                                let ow: int = if w < p {
                                    w
                                } else {
                                    w + 1
                                };
                                assert(b_db[w] == a_db[ow]);
                                assert(lock_conflict(a_db, id, cf as int, key@, excl));
                            }
                        }
                    }
                    db.push_lock(id, cf, key, true);
                    let kcopy = crate::keyspace::copy_bytes(key);
                    self.locks.remove(j);
                    self.locks.push(TxLock { cf, key: kcopy, exclusive: true });
                    proof {
                        let c_db = db.locks();
                        let c_tx = self.locks@;
                        assert(c_db.drop_last() == b_db);
                        assert(c_tx =~= a_tx.remove(j as int).push(c_tx.last()));
                        assert(c_tx.last().cf == cf && c_tx.last().key@ == key@
                            && c_tx.last().exclusive);
                        // the transaction still lists at most one lock per key
                        assert forall|x: int, y: int|
                            0 <= x < y < c_tx.len() implies !((#[trigger] c_tx[x]).cf == (
                        #[trigger] c_tx[y]).cf && c_tx[x].key@ == c_tx[y].key@) by {
                            if y == c_tx.len() - 1 {
                                let ox: int = if x < j {
                                    x
                                } else {
                                    x + 1
                                };
                                assert(c_tx[x] == a_tx[ox]);
                                if c_tx[x].cf == cf && c_tx[x].key@ == key@ {
                                    assert(a_tx[ox].cf == a_tx[j as int].cf && a_tx[ox].key@
                                        == a_tx[j as int].key@);
                                }
                            } else {
                                let ox: int = if x < j {
                                    x
                                } else {
                                    x + 1
                                };
                                let oy: int = if y < j {
                                    y
                                } else {
                                    y + 1
                                };
                                assert(c_tx[x] == a_tx[ox] && c_tx[y] == a_tx[oy]);
                            }
                        }
                        // every listed lock is in the table
                        assert forall|x: int|
                            0 <= x < c_tx.len() implies holds_exact(
                            c_db,
                            id,
                            #[trigger] c_tx[x],
                        ) by {
                            if x == c_tx.len() - 1 {
                                assert(c_db.last().cf == cf && c_db.last().key@ == key@
                                    && c_db.last().owner == id && c_db.last().exclusive);
                                assert(c_db[c_db.len() - 1] == c_db.last());
                            } else {
                                let ox: int = if x < j {
                                    x
                                } else {
                                    x + 1
                                };
                                assert(c_tx[x] == a_tx[ox]);
                                assert(holds_exact(a_db, id, a_tx[ox]));
                                let w = choose|w: int|
                                    0 <= w < a_db.len() && (#[trigger] a_db[w]).cf == a_tx[ox].cf
                                        && a_db[w].key@ == a_tx[ox].key@ && a_db[w].owner == id
                                        && a_db[w].exclusive == a_tx[ox].exclusive;
                                assert(w != p) by {
                                    if w == p {
                                        assert(a_tx[ox].cf == cf && a_tx[ox].key@ == key@);
                                        assert(a_tx[j as int].cf == cf && a_tx[j as int].key@
                                            == key@);
                                    }
                                }
                                let nw: int = if w < p {
                                    w
                                } else {
                                    w - 1
                                };
                                assert(b_db[nw] == a_db[w]);
                                assert(c_db[nw] == b_db[nw]);
                            }
                        }
                        // every table entry of this transaction is listed
                        assert forall|x: int|
                            0 <= x < c_db.len() && (#[trigger] c_db[x]).owner == id implies
                            lock_known(c_tx, c_db[x]) by {
                            if x == c_db.len() - 1 {
                                assert(c_tx[c_tx.len() - 1] == c_tx.last());
                            } else {
                                assert(c_db[x] == b_db[x]);
                                let ow: int = if x < p {
                                    x
                                } else {
                                    x + 1
                                };
                                assert(b_db[x] == a_db[ow]);
                                assert(lock_known(a_tx, a_db[ow]));
                                let l = choose|l: int|
                                    0 <= l < a_tx.len() && (#[trigger] a_tx[l]).cf == a_db[ow].cf
                                        && a_tx[l].key@ == a_db[ow].key@ && a_tx[l].exclusive
                                        == a_db[ow].exclusive;
                                assert(l != j) by {
                                    if l == j {
                                        assert(a_db[ow].cf == cf && a_db[ow].key@ == key@);
                                        assert(a_db[ow].owner == id);
                                        assert(ow != p);
                                        assert(!(a_db[ow].cf == a_db[p].cf && a_db[ow].key@
                                            == a_db[p].key@ && a_db[ow].owner == a_db[p].owner));
                                    }
                                }
                                let nl: int = if l < j {
                                    l
                                } else {
                                    l - 1
                                };
                                assert(c_tx[nl] == a_tx[l]);
                            }
                        }
                        assert(self.marks() == old(self).marks());
                        assert(self.ops() == old(self).ops());
                        assert(old(self).wf());
                        assert(self.tx_locks().len() == old(self).tx_locks().len());
                        assert(self.wf());
                    }
                }
            },
            None => {
                proof {
                    assert(!holds_lock(a_db, id, cf as int, key@, false)) by {
                        if holds_lock(a_db, id, cf as int, key@, false) {
                            let w = choose|w: int|
                                0 <= w < a_db.len() && crate::transaction_db::covers(
                                    #[trigger] a_db[w],
                                    cf as int,
                                    key@,
                                ) && a_db[w].owner == id && (a_db[w].exclusive || !false);
                            assert(lock_known(a_tx, a_db[w]));
                            let l = choose|l: int|
                                0 <= l < a_tx.len() && (#[trigger] a_tx[l]).cf == a_db[w].cf
                                    && a_tx[l].key@ == a_db[w].key@ && a_tx[l].exclusive
                                    == a_db[w].exclusive;
                            assert(a_tx[l].cf == cf && a_tx[l].key@ == key@);
                        }
                    }
                }
                db.push_lock(id, cf, key, excl);
                let kcopy = crate::keyspace::copy_bytes(key);
                self.locks.push(TxLock { cf, key: kcopy, exclusive: excl });
                proof {
                    let c_db = db.locks();
                    let c_tx = self.locks@;
                    assert(c_db.drop_last() == a_db);
                    assert(c_tx.drop_last() =~= a_tx);
                    assert forall|x: int|
                        0 <= x < c_tx.len() implies holds_exact(c_db, id, #[trigger] c_tx[x]) by {
                        if x == c_tx.len() - 1 {
                            assert(c_db[c_db.len() - 1] == c_db.last());
                            assert(c_tx[x].cf == cf && c_tx[x].key@ == key@ && c_tx[x].exclusive
                                == excl);
                        } else {
                            assert(c_tx[x] == a_tx[x]);
                            assert(holds_exact(a_db, id, a_tx[x]));
                            let w = choose|w: int|
                                0 <= w < a_db.len() && (#[trigger] a_db[w]).cf == a_tx[x].cf
                                    && a_db[w].key@ == a_tx[x].key@ && a_db[w].owner == id
                                    && a_db[w].exclusive == a_tx[x].exclusive;
                            assert(c_db[w] == a_db[w]);
                        }
                    }
                    assert forall|x: int|
                        0 <= x < c_db.len() && (#[trigger] c_db[x]).owner == id implies lock_known(
                        c_tx,
                        c_db[x],
                    ) by {
                        if x == c_db.len() - 1 {
                            assert(c_tx[c_tx.len() - 1] == c_tx.last());
                        } else {
                            assert(c_db[x] == a_db[x]);
                            assert(lock_known(a_tx, a_db[x]));
                            let l = choose|l: int|
                                0 <= l < a_tx.len() && (#[trigger] a_tx[l]).cf == a_db[x].cf
                                    && a_tx[l].key@ == a_db[x].key@ && a_tx[l].exclusive
                                    == a_db[x].exclusive;
                            assert(c_tx[l] == a_tx[l]);
                        }
                    }
                    assert forall|x: int, y: int|
                        0 <= x < y < c_tx.len() implies !((#[trigger] c_tx[x]).cf == (
                    #[trigger] c_tx[y]).cf && c_tx[x].key@ == c_tx[y].key@) by {
                        if y == c_tx.len() - 1 {
                            assert(c_tx[x] == a_tx[x]);
                        } else {
                            assert(c_tx[x] == a_tx[x] && c_tx[y] == a_tx[y]);
                        }
                    }
                    assert(self.marks() == old(self).marks());
                    assert(self.ops() == old(self).ops());
                    assert(old(self).wf());
                    assert(self.tx_locks().len() == old(self).tx_locks().len() + 1);
                    assert(self.wf());
                }
            },
        }
    }

    /// The id the owning database granted this transaction.
    pub fn get_id(&mut self) -> (r: Result<u64, Error>)
        ensures
            *final(self) == *old(self),
            r == Ok::<u64, Error>(old(self).spec_id()),
    {
        Ok(self.id)
    }

    /// Reads `key` in the default family as this transaction sees it: the
    /// committed state with its own staged mutations applied over it. The
    /// read is snapshot-free: a snapshot attached to the read options is not
    /// consulted.
    pub fn get_opt(&self, db: &TransactionDB, key: &[u8], readopts: &ReadOptions) -> (r: Result<
        Option<DBVector>,
        Error,
    >)
        requires
            self.wf(),
            db.wf(),
            attached(self, db),
        ensures
            self.spec_state() != TxState::Active ==> (r matches Err(e) && e
                == Error::InvalidArgument),
            self.spec_state() == TxState::Active ==> r is Ok,
            r is Ok ==> (r->Ok_0 is Some <==> overlay_maps(db, self)[default_index(
                db.families(),
            )].dom().contains(key@)),
            r is Ok && r->Ok_0 is Some ==> r->Ok_0.unwrap()@ == overlay_maps(db, self)[default_index(
                db.families(),
            )][key@],
    {
        let _ = readopts;
        if !(self.state == TxState::Active) {
            return Err(Error::InvalidArgument);
        }
        let d = locate_default(db.families_ref());
        proof {
            lemma_default_index(db.families());
        }
        match overlay_read(db, &self.batch, d, key) {
            Some(v) => Ok(Some(DBVector::from_vec(v))),
            None => Ok(None),
        }
    }

    /// Reads `key` in the default family as this transaction sees it.
    pub fn get(&self, db: &TransactionDB, key: &[u8]) -> (r: Result<Option<DBVector>, Error>)
        requires
            self.wf(),
            db.wf(),
            attached(self, db),
        ensures
            self.spec_state() != TxState::Active ==> (r matches Err(e) && e
                == Error::InvalidArgument),
            self.spec_state() == TxState::Active ==> r is Ok,
            r is Ok ==> (r->Ok_0 is Some <==> overlay_maps(db, self)[default_index(
                db.families(),
            )].dom().contains(key@)),
            r is Ok && r->Ok_0 is Some ==> r->Ok_0.unwrap()@ == overlay_maps(db, self)[default_index(
                db.families(),
            )][key@],
    {
        self.get_opt(db, key, &ReadOptions::default())
    }

    /// Reads `key` in the given column family as this transaction sees it.
    pub fn get_cf_opt(
        &self,
        db: &TransactionDB,
        cf: ColumnFamily,
        key: &[u8],
        readopts: &ReadOptions,
    ) -> (r: Result<Option<DBVector>, Error>)
        requires
            self.wf(),
            db.wf(),
            attached(self, db),
        ensures
            self.spec_state() != TxState::Active ==> (r matches Err(e) && e
                == Error::InvalidArgument),
            self.spec_state() == TxState::Active && !db.cf_valid(cf) ==> (r matches Err(e) && e
                == Error::InvalidColumnFamily),
            r is Ok <==> self.spec_state() == TxState::Active && db.cf_valid(cf),
            r is Ok ==> (r->Ok_0 is Some <==> overlay_maps(db, self)[cf.index as int].dom().contains(
                key@,
            )),
            r is Ok && r->Ok_0 is Some ==> r->Ok_0.unwrap()@ == overlay_maps(db, self)[cf.index as int][key@],
    {
        let _ = readopts;
        if !(self.state == TxState::Active) {
            return Err(Error::InvalidArgument);
        }
        let fams = db.families_ref();
        if !(cf.index < fams.len() && fams[cf.index].alive) {
            return Err(Error::InvalidColumnFamily);
        }
        match overlay_read(db, &self.batch, cf.index, key) {
            Some(v) => Ok(Some(DBVector::from_vec(v))),
            None => Ok(None),
        }
    }

    /// Reads `key` in the given column family as this transaction sees it.
    pub fn get_cf(&self, db: &TransactionDB, cf: ColumnFamily, key: &[u8]) -> (r: Result<
        Option<DBVector>,
        Error,
    >)
        requires
            self.wf(),
            db.wf(),
            attached(self, db),
        ensures
            self.spec_state() != TxState::Active ==> (r matches Err(e) && e
                == Error::InvalidArgument),
            r is Ok <==> self.spec_state() == TxState::Active && db.cf_valid(cf),
            r is Ok ==> (r->Ok_0 is Some <==> overlay_maps(db, self)[cf.index as int].dom().contains(
                key@,
            )),
            r is Ok && r->Ok_0 is Some ==> r->Ok_0.unwrap()@ == overlay_maps(db, self)[cf.index as int][key@],
    {
        self.get_cf_opt(db, cf, key, &ReadOptions::default())
    }

    /// Reads `key` for update: a shared or exclusive lock on the key is
    /// acquired first, blocking conflicting requests by other transactions
    /// until this one ends. A conflicting lock held elsewhere makes the call
    /// fail with a lock timeout.
    pub fn get_for_update_opt(
        &mut self,
        db: &mut TransactionDB,
        key: &[u8],
        readopts: &ReadOptions,
        exclusive: bool,
    ) -> (r: Result<Option<DBVector>, Error>)
        requires
            old(self).wf(),
            old(db).wf(),
            attached(old(self), old(db)),
        ensures
            final(self).wf(),
            final(db).wf(),
            attached(final(self), final(db)),
            final(self).spec_id() == old(self).spec_id(),
            final(self).spec_state() == old(self).spec_state(),
            final(self).ops() == old(self).ops(),
            final(self).marks() == old(self).marks(),
            final(db).families() == old(db).families(),
            final(db).path_view() == old(db).path_view(),
            final(db).next_id() == old(db).next_id(),
            old(self).spec_state() != TxState::Active ==> (r matches Err(e) && e
                == Error::InvalidArgument) && *final(self) == *old(self) && *final(db) == *old(db),
            old(self).spec_state() == TxState::Active && lock_conflict(
                old(db).locks(),
                old(self).spec_id(),
                default_index(old(db).families()),
                key@,
                exclusive,
            ) ==> (r matches Err(e) && e == Error::LockTimeout) && *final(self) == *old(self)
                && *final(db) == *old(db),
            r is Ok <==> old(self).spec_state() == TxState::Active && !lock_conflict(
                old(db).locks(),
                old(self).spec_id(),
                default_index(old(db).families()),
                key@,
                exclusive,
            ),
            r is Ok ==> holds_lock(
                final(db).locks(),
                old(self).spec_id(),
                default_index(old(db).families()),
                key@,
                exclusive,
            ),
            r is Ok ==> same_foreign_locks(
                old(db).locks(),
                final(db).locks(),
                old(self).spec_id(),
            ),
            r is Ok ==> (r->Ok_0 is Some <==> overlay_maps(old(db), old(self))[default_index(
                old(db).families(),
            )].dom().contains(key@)),
            r is Ok && r->Ok_0 is Some ==> r->Ok_0.unwrap()@ == overlay_maps(old(db), old(self))[default_index(
                old(db).families(),
            )][key@],
    {
        let _ = readopts;
        if !(self.state == TxState::Active) {
            return Err(Error::InvalidArgument);
        }
        let d = locate_default(db.families_ref());
        proof {
            lemma_default_index(db.families());
        }
        if db.conflict_check(self.id, d, key, exclusive) {
            return Err(Error::LockTimeout);
        }
        self.acquire(db, d, key, exclusive);
        match overlay_read(db, &self.batch, d, key) {
            Some(v) => Ok(Some(DBVector::from_vec(v))),
            None => Ok(None),
        }
    }

    /// Reads `key` for update with default read options.
    pub fn get_for_update(&mut self, db: &mut TransactionDB, key: &[u8], exclusive: bool) -> (r:
        Result<Option<DBVector>, Error>)
        requires
            old(self).wf(),
            old(db).wf(),
            attached(old(self), old(db)),
        ensures
            final(self).wf(),
            final(db).wf(),
            attached(final(self), final(db)),
            final(self).spec_id() == old(self).spec_id(),
            final(self).spec_state() == old(self).spec_state(),
            final(self).ops() == old(self).ops(),
            final(db).families() == old(db).families(),
            final(db).next_id() == old(db).next_id(),
            r is Ok <==> old(self).spec_state() == TxState::Active && !lock_conflict(
                old(db).locks(),
                old(self).spec_id(),
                default_index(old(db).families()),
                key@,
                exclusive,
            ),
            old(self).spec_state() == TxState::Active && lock_conflict(
                old(db).locks(),
                old(self).spec_id(),
                default_index(old(db).families()),
                key@,
                exclusive,
            ) ==> (r matches Err(e) && e == Error::LockTimeout),
            old(self).spec_state() != TxState::Active ==> (r matches Err(e) && e
                == Error::InvalidArgument),
            r is Ok ==> holds_lock(
                final(db).locks(),
                old(self).spec_id(),
                default_index(old(db).families()),
                key@,
                exclusive,
            ),
            r is Ok ==> same_foreign_locks(
                old(db).locks(),
                final(db).locks(),
                old(self).spec_id(),
            ),
            r is Ok ==> (r->Ok_0 is Some <==> overlay_maps(old(db), old(self))[default_index(
                old(db).families(),
            )].dom().contains(key@)),
            r is Ok && r->Ok_0 is Some ==> r->Ok_0.unwrap()@ == overlay_maps(old(db), old(self))[default_index(
                old(db).families(),
            )][key@],
    {
        self.get_for_update_opt(db, key, &ReadOptions::default(), exclusive)
    }

    /// Releases the listed locks from position `from` on, newest
    /// acquisitions last, leaving every other transaction's locks untouched.
    #[verifier::rlimit(100)]
    fn release_locks(locks: &Vec<TxLock>, id: u64, db: &mut TransactionDB, from: usize)
        requires
            old(db).wf(),
            from <= locks@.len(),
            forall|x: int, y: int|
                0 <= x < y < locks@.len() ==> !((#[trigger] locks@[x]).cf == (
                #[trigger] locks@[y]).cf && locks@[x].key@ == locks@[y].key@),
            forall|x: int|
                0 <= x < locks@.len() ==> holds_exact(old(db).locks(), id, #[trigger] locks@[x]),
            forall|i: int|
                0 <= i < old(db).locks().len() && (#[trigger] old(db).locks()[i]).owner == id
                    ==> lock_known(locks@, old(db).locks()[i]),
        ensures
            final(db).wf(),
            final(db).families() == old(db).families(),
            final(db).path_view() == old(db).path_view(),
            final(db).next_id() == old(db).next_id(),
            same_foreign_locks(old(db).locks(), final(db).locks(), id),
            forall|x: int|
                0 <= x < from ==> holds_exact(final(db).locks(), id, #[trigger] locks@[x]),
            forall|i: int|
                0 <= i < final(db).locks().len() && (#[trigger] final(db).locks()[i]).owner == id
                    ==> lock_known(locks@.take(from as int), final(db).locks()[i]),
    {
        let n = locks.len();
        let mut j: usize = from;
        while j < n
            invariant
                from <= j <= n,
                n == locks@.len(),
                forall|x: int, y: int|
                    0 <= x < y < n ==> !((#[trigger] locks@[x]).cf == (
                    #[trigger] locks@[y]).cf && locks@[x].key@
                        == locks@[y].key@),
                db.wf(),
                db.families() == old(db).families(),
                db.path_view() == old(db).path_view(),
                db.next_id() == old(db).next_id(),
                same_foreign_locks(old(db).locks(), db.locks(), id),
                forall|x: int|
                    (0 <= x < from || j <= x < n) ==> holds_exact(
                        db.locks(),
                        id,
                        #[trigger] locks@[x],
                    ),
                forall|i: int|
                    0 <= i < db.locks().len() && (#[trigger] db.locks()[i]).owner == id
                        ==> exists|x: int|
                        (0 <= x < from || j <= x < n) && (#[trigger] locks@[x]).cf
                            == db.locks()[i].cf && locks@[x].key@ == db.locks()[i].key@
                            && locks@[x].exclusive == db.locks()[i].exclusive,
            decreases n - j,
        {
            let ghost a_db = db.locks();
            let cfj = locks[j].cf;
            proof {
                assert(holds_exact(a_db, id, locks@[j as int]));
                let w = choose|w: int|
                    0 <= w < a_db.len() && (#[trigger] a_db[w]).cf == locks@[j as int].cf
                        && a_db[w].key@ == locks@[j as int].key@ && a_db[w].owner == id
                        && a_db[w].exclusive == locks@[j as int].exclusive;
                assert(crate::transaction_db::covers(
                    a_db[w],
                    cfj as int,
                    locks@[j as int].key@,
                ));
            }
            db.remove_own_lock(id, cfj, locks[j].key.as_slice());
            proof {
                let b_db = db.locks();
                let keyj = locks@[j as int].key@;
                let p = crate::transaction_db::own_lock_index(a_db, id, cfj as int, keyj);
                assert(b_db == a_db.remove(p));
                assert(0 <= p < a_db.len() && crate::transaction_db::covers(
                    a_db[p],
                    cfj as int,
                    keyj,
                ) && a_db[p].owner == id);
                assert forall|x: int|
                    (0 <= x < from || j + 1 <= x < n) implies holds_exact(
                    b_db,
                    id,
                    #[trigger] locks@[x],
                ) by {
                    assert(holds_exact(a_db, id, locks@[x]));
                    let w = choose|w: int|
                        0 <= w < a_db.len() && (#[trigger] a_db[w]).cf == locks@[x].cf
                            && a_db[w].key@ == locks@[x].key@ && a_db[w].owner == id
                            && a_db[w].exclusive == locks@[x].exclusive;
                    assert(w != p) by {
                        if w == p {
                            assert(locks@[x].cf == cfj && locks@[x].key@
                                == keyj);
                            assert(locks@[j as int].cf == cfj
                                && locks@[j as int].key@ == keyj);
                        }
                    }
                    let nw: int = if w < p {
                        w
                    } else {
                        w - 1
                    };
                    assert(b_db[nw] == a_db[w]);
                }
                assert forall|i: int|
                    0 <= i < b_db.len() && (#[trigger] b_db[i]).owner == id implies exists|x: int|
                    (0 <= x < from || j + 1 <= x < n) && (#[trigger] locks@[x]).cf
                        == b_db[i].cf && locks@[x].key@ == b_db[i].key@
                        && locks@[x].exclusive == b_db[i].exclusive by {
                    let oi: int = if i < p {
                        i
                    } else {
                        i + 1
                    };
                    assert(b_db[i] == a_db[oi]);
                    let x = choose|x: int|
                        (0 <= x < from || j <= x < n) && (#[trigger] locks@[x]).cf
                            == a_db[oi].cf && locks@[x].key@ == a_db[oi].key@
                            && locks@[x].exclusive == a_db[oi].exclusive;
                    assert(x != j) by {
                        if x == j {
                            assert(crate::transaction_db::covers(a_db[oi], cfj as int, keyj));
                            assert(a_db[oi].owner == id);
                            assert(oi != p);
                            assert(!(a_db[oi].cf == a_db[p].cf && a_db[oi].key@ == a_db[p].key@
                                && a_db[oi].owner == a_db[p].owner));
                        }
                    }
                }
            }
            j = j + 1;
        }
        proof {
            assert forall|i: int|
                0 <= i < db.locks().len() && (#[trigger] db.locks()[i]).owner
                    == id implies lock_known(
                locks@.take(from as int),
                db.locks()[i],
            ) by {
                let x = choose|x: int|
                    (0 <= x < from || n <= x < n) && (#[trigger] locks@[x]).cf
                        == db.locks()[i].cf && locks@[x].key@ == db.locks()[i].key@
                        && locks@[x].exclusive == db.locks()[i].exclusive;
                assert(locks@.take(from as int)[x] == locks@[x]);
            }
        }
    }

    /// Stages an insertion into the default family, after acquiring the
    /// exclusive write lock on the key. An empty key is rejected before any
    /// engine work.
    pub fn put(&mut self, db: &mut TransactionDB, key: &[u8], value: &[u8]) -> (r: Result<
        (),
        Error,
    >)
        requires
            old(self).wf(),
            old(db).wf(),
            attached(old(self), old(db)),
        ensures
            final(self).wf(),
            final(db).wf(),
            attached(final(self), final(db)),
            final(self).spec_id() == old(self).spec_id(),
            final(self).spec_state() == old(self).spec_state(),
            final(self).marks() == old(self).marks(),
            final(db).families() == old(db).families(),
            final(db).path_view() == old(db).path_view(),
            final(db).next_id() == old(db).next_id(),
            same_foreign_locks(old(db).locks(), final(db).locks(), old(self).spec_id()),
            old(self).spec_state() != TxState::Active ==> (r matches Err(e) && e
                == Error::InvalidArgument) && *final(self) == *old(self) && *final(db) == *old(db),
            old(self).spec_state() == TxState::Active && key@.len() == 0 ==> (r matches Err(e)
                && e == Error::InvalidArgument) && *final(self) == *old(self) && *final(db) == *old(
            db),
            old(self).spec_state() == TxState::Active && key@.len() > 0 && lock_conflict(
                old(db).locks(),
                old(self).spec_id(),
                default_index(old(db).families()),
                key@,
                true,
            ) ==> (r matches Err(e) && e == Error::LockTimeout) && *final(self) == *old(self)
                && *final(db) == *old(db),
            r is Ok <==> old(self).spec_state() == TxState::Active && key@.len() > 0
                && !lock_conflict(
                old(db).locks(),
                old(self).spec_id(),
                default_index(old(db).families()),
                key@,
                true,
            ),
            r is Ok ==> final(self).ops() == old(self).ops().push(
                OpView::Put { cf: None, key: key@, value: value@ },
            ),
            r is Ok ==> holds_lock(
                final(db).locks(),
                old(self).spec_id(),
                default_index(old(db).families()),
                key@,
                true,
            ),
            r is Err ==> final(self).ops() == old(self).ops(),
    {
        if !(self.state == TxState::Active) {
            return Err(Error::InvalidArgument);
        }
        if key.len() == 0 {
            return Err(Error::InvalidArgument);
        }
        let d = locate_default(db.families_ref());
        proof {
            lemma_default_index(db.families());
        }
        if db.conflict_check(self.id, d, key, true) {
            return Err(Error::LockTimeout);
        }
        self.acquire(db, d, key, true);
        let staged = self.batch.put(key, value);
        proof {
            assert(staged is Ok);
            assert forall|i: int|
                0 <= i < self.ops().len() implies crate::write_batch::op_ok(
                db.families(),
                #[trigger] self.ops()[i],
            ) by {
                if i < self.ops().len() - 1 {
                    assert(self.ops()[i] == old(self).ops()[i]);
                }
            }
        }
        Ok(())
    }

    /// Stages an insertion into the given column family, after acquiring the
    /// exclusive write lock on the key.
    pub fn put_cf(&mut self, db: &mut TransactionDB, cf: ColumnFamily, key: &[u8], value: &[u8]) -> (r:
        Result<(), Error>)
        requires
            old(self).wf(),
            old(db).wf(),
            attached(old(self), old(db)),
        ensures
            final(self).wf(),
            final(db).wf(),
            attached(final(self), final(db)),
            final(self).spec_id() == old(self).spec_id(),
            final(self).spec_state() == old(self).spec_state(),
            final(self).marks() == old(self).marks(),
            final(db).families() == old(db).families(),
            final(db).next_id() == old(db).next_id(),
            same_foreign_locks(old(db).locks(), final(db).locks(), old(self).spec_id()),
            old(self).spec_state() != TxState::Active ==> (r matches Err(e) && e
                == Error::InvalidArgument) && *final(self) == *old(self) && *final(db) == *old(db),
            old(self).spec_state() == TxState::Active && key@.len() == 0 ==> (r matches Err(e)
                && e == Error::InvalidArgument) && *final(self) == *old(self) && *final(db) == *old(
            db),
            old(self).spec_state() == TxState::Active && key@.len() > 0 && !old(db).cf_valid(cf)
                ==> (r matches Err(e) && e == Error::InvalidColumnFamily) && *final(self) == *old(
            self) && *final(db) == *old(db),
            r is Ok <==> old(self).spec_state() == TxState::Active && key@.len() > 0 && old(
                db,
            ).cf_valid(cf) && !lock_conflict(
                old(db).locks(),
                old(self).spec_id(),
                cf.index as int,
                key@,
                true,
            ),
            r is Ok ==> final(self).ops() == old(self).ops().push(
                OpView::Put { cf: Some(cf), key: key@, value: value@ },
            ),
            r is Ok ==> holds_lock(
                final(db).locks(),
                old(self).spec_id(),
                cf.index as int,
                key@,
                true,
            ),
            r is Err ==> final(self).ops() == old(self).ops(),
    {
        if !(self.state == TxState::Active) {
            return Err(Error::InvalidArgument);
        }
        if key.len() == 0 {
            return Err(Error::InvalidArgument);
        }
        let fams = db.families_ref();
        if !(cf.index < fams.len() && fams[cf.index].alive) {
            return Err(Error::InvalidColumnFamily);
        }
        if db.conflict_check(self.id, cf.index, key, true) {
            return Err(Error::LockTimeout);
        }
        self.acquire(db, cf.index, key, true);
        let staged = self.batch.put_cf(cf, key, value);
        proof {
            assert(staged is Ok);
            assert forall|i: int|
                0 <= i < self.ops().len() implies crate::write_batch::op_ok(
                db.families(),
                #[trigger] self.ops()[i],
            ) by {
                if i < self.ops().len() - 1 {
                    assert(self.ops()[i] == old(self).ops()[i]);
                }
            }
        }
        Ok(())
    }

    /// Stages a merge into the default family, after acquiring the exclusive
    /// write lock on the key. An empty key is rejected before any engine
    /// work.
    pub fn merge(&mut self, db: &mut TransactionDB, key: &[u8], value: &[u8]) -> (r: Result<
        (),
        Error,
    >)
        requires
            old(self).wf(),
            old(db).wf(),
            attached(old(self), old(db)),
        ensures
            final(self).wf(),
            final(db).wf(),
            attached(final(self), final(db)),
            final(self).spec_id() == old(self).spec_id(),
            final(self).spec_state() == old(self).spec_state(),
            final(self).marks() == old(self).marks(),
            final(db).families() == old(db).families(),
            final(db).next_id() == old(db).next_id(),
            same_foreign_locks(old(db).locks(), final(db).locks(), old(self).spec_id()),
            r is Ok <==> old(self).spec_state() == TxState::Active && key@.len() > 0
                && !lock_conflict(
                old(db).locks(),
                old(self).spec_id(),
                default_index(old(db).families()),
                key@,
                true,
            ),
            old(self).spec_state() != TxState::Active ==> (r matches Err(e) && e
                == Error::InvalidArgument) && *final(self) == *old(self) && *final(db) == *old(db),
            old(self).spec_state() == TxState::Active && key@.len() == 0 ==> (r matches Err(e)
                && e == Error::InvalidArgument) && *final(self) == *old(self) && *final(db) == *old(
            db),
            r is Ok ==> final(self).ops() == old(self).ops().push(
                OpView::Merge { cf: None, key: key@, value: value@ },
            ),
            r is Err ==> final(self).ops() == old(self).ops(),
    {
        if !(self.state == TxState::Active) {
            return Err(Error::InvalidArgument);
        }
        if key.len() == 0 {
            return Err(Error::InvalidArgument);
        }
        let d = locate_default(db.families_ref());
        proof {
            lemma_default_index(db.families());
        }
        if db.conflict_check(self.id, d, key, true) {
            return Err(Error::LockTimeout);
        }
        self.acquire(db, d, key, true);
        let staged = self.batch.merge(key, value);
        proof {
            assert(staged is Ok);
            assert forall|i: int|
                0 <= i < self.ops().len() implies crate::write_batch::op_ok(
                db.families(),
                #[trigger] self.ops()[i],
            ) by {
                if i < self.ops().len() - 1 {
                    assert(self.ops()[i] == old(self).ops()[i]);
                }
            }
        }
        Ok(())
    }

    /// Stages a removal from the default family, after acquiring the
    /// exclusive write lock on the key. An empty key is rejected before any
    /// engine work.
    pub fn delete(&mut self, db: &mut TransactionDB, key: &[u8]) -> (r: Result<(), Error>)
        requires
            old(self).wf(),
            old(db).wf(),
            attached(old(self), old(db)),
        ensures
            final(self).wf(),
            final(db).wf(),
            attached(final(self), final(db)),
            final(self).spec_id() == old(self).spec_id(),
            final(self).spec_state() == old(self).spec_state(),
            final(self).marks() == old(self).marks(),
            final(db).families() == old(db).families(),
            final(db).next_id() == old(db).next_id(),
            same_foreign_locks(old(db).locks(), final(db).locks(), old(self).spec_id()),
            r is Ok <==> old(self).spec_state() == TxState::Active && key@.len() > 0
                && !lock_conflict(
                old(db).locks(),
                old(self).spec_id(),
                default_index(old(db).families()),
                key@,
                true,
            ),
            old(self).spec_state() != TxState::Active ==> (r matches Err(e) && e
                == Error::InvalidArgument) && *final(self) == *old(self) && *final(db) == *old(db),
            old(self).spec_state() == TxState::Active && key@.len() == 0 ==> (r matches Err(e)
                && e == Error::InvalidArgument) && *final(self) == *old(self) && *final(db) == *old(
            db),
            r is Ok ==> final(self).ops() == old(self).ops().push(
                OpView::Delete { cf: None, key: key@ },
            ),
            r is Err ==> final(self).ops() == old(self).ops(),
    {
        if !(self.state == TxState::Active) {
            return Err(Error::InvalidArgument);
        }
        if key.len() == 0 {
            return Err(Error::InvalidArgument);
        }
        let d = locate_default(db.families_ref());
        proof {
            lemma_default_index(db.families());
        }
        if db.conflict_check(self.id, d, key, true) {
            return Err(Error::LockTimeout);
        }
        self.acquire(db, d, key, true);
        let staged = self.batch.delete(key);
        proof {
            assert(staged is Ok);
            assert forall|i: int|
                0 <= i < self.ops().len() implies crate::write_batch::op_ok(
                db.families(),
                #[trigger] self.ops()[i],
            ) by {
                if i < self.ops().len() - 1 {
                    assert(self.ops()[i] == old(self).ops()[i]);
                }
            }
        }
        Ok(())
    }

    /// Stages a removal from the given column family, after acquiring the
    /// exclusive write lock on the key.
    pub fn delete_cf(&mut self, db: &mut TransactionDB, cf: ColumnFamily, key: &[u8]) -> (r:
        Result<(), Error>)
        requires
            old(self).wf(),
            old(db).wf(),
            attached(old(self), old(db)),
        ensures
            final(self).wf(),
            final(db).wf(),
            attached(final(self), final(db)),
            final(self).spec_id() == old(self).spec_id(),
            final(self).spec_state() == old(self).spec_state(),
            final(self).marks() == old(self).marks(),
            final(db).families() == old(db).families(),
            final(db).next_id() == old(db).next_id(),
            same_foreign_locks(old(db).locks(), final(db).locks(), old(self).spec_id()),
            r is Ok <==> old(self).spec_state() == TxState::Active && key@.len() > 0 && old(
                db,
            ).cf_valid(cf) && !lock_conflict(
                old(db).locks(),
                old(self).spec_id(),
                cf.index as int,
                key@,
                true,
            ),
            old(self).spec_state() != TxState::Active ==> (r matches Err(e) && e
                == Error::InvalidArgument) && *final(self) == *old(self) && *final(db) == *old(db),
            old(self).spec_state() == TxState::Active && key@.len() == 0 ==> (r matches Err(e)
                && e == Error::InvalidArgument) && *final(self) == *old(self) && *final(db) == *old(
            db),
            old(self).spec_state() == TxState::Active && key@.len() > 0 && !old(db).cf_valid(cf)
                ==> (r matches Err(e) && e == Error::InvalidColumnFamily) && *final(self) == *old(
            self) && *final(db) == *old(db),
            r is Ok ==> final(self).ops() == old(self).ops().push(
                OpView::Delete { cf: Some(cf), key: key@ },
            ),
            r is Err ==> final(self).ops() == old(self).ops(),
    {
        if !(self.state == TxState::Active) {
            return Err(Error::InvalidArgument);
        }
        if key.len() == 0 {
            return Err(Error::InvalidArgument);
        }
        let fams = db.families_ref();
        if !(cf.index < fams.len() && fams[cf.index].alive) {
            return Err(Error::InvalidColumnFamily);
        }
        if db.conflict_check(self.id, cf.index, key, true) {
            return Err(Error::LockTimeout);
        }
        self.acquire(db, cf.index, key, true);
        let staged = self.batch.delete_cf(cf, key);
        proof {
            assert(staged is Ok);
            assert forall|i: int|
                0 <= i < self.ops().len() implies crate::write_batch::op_ok(
                db.families(),
                #[trigger] self.ops()[i],
            ) by {
                if i < self.ops().len() - 1 {
                    assert(self.ops()[i] == old(self).ops()[i]);
                }
            }
        }
        Ok(())
    }

    /// Marks a rollback checkpoint within the active transaction.
    pub fn set_savepoint(&mut self) -> (r: Result<(), Error>)
        requires
            old(self).wf(),
        ensures
            final(self).wf(),
            final(self).spec_id() == old(self).spec_id(),
            final(self).spec_state() == old(self).spec_state(),
            final(self).ops() == old(self).ops(),
            final(self).tx_locks() == old(self).tx_locks(),
            old(self).spec_state() != TxState::Active ==> (r matches Err(e) && e
                == Error::InvalidArgument) && *final(self) == *old(self),
            r is Ok <==> old(self).spec_state() == TxState::Active,
            r is Ok ==> final(self).marks() == old(self).marks().push(
                ((old(self).ops().len() as usize), (old(self).tx_locks().len() as usize)),
            ),
    {
        if !(self.state == TxState::Active) {
            return Err(Error::InvalidArgument);
        }
        let m = (self.batch.len(), self.locks.len());
        self.savepoints.push(m);
        proof {
            assert(self.ops() == old(self).ops());
            assert(self.tx_locks() == old(self).tx_locks());
            assert(old(self).wf());
            assert(self.marks() == old(self).marks().push(m));
            assert forall|i: int|
                0 <= i < self.marks().len() implies (#[trigger] self.marks()[i]).0
                <= self.ops().len() && self.marks()[i].1 <= self.tx_locks().len() by {
                if i < self.marks().len() - 1 {
                    assert(self.marks()[i] == old(self).marks()[i]);
                } else {
                    assert(self.marks()[i] == m);
                }
            }
            assert forall|i: int, j: int|
                0 <= i < j < self.marks().len() implies (#[trigger] self.marks()[i]).0
                <= (#[trigger] self.marks()[j]).0 && self.marks()[i].1 <= self.marks()[j].1 by {
                assert(self.marks()[i] == old(self).marks()[i]);
                if j < self.marks().len() - 1 {
                    assert(self.marks()[j] == old(self).marks()[j]);
                } else {
                    assert(self.marks()[j] == m);
                }
            }
        }
        Ok(())
    }

    /// Undoes all staged mutations and lock acquisitions performed since the
    /// most recent savepoint, leaving the transaction active. Without a
    /// savepoint the engine reports a failure.
    pub fn rollback_to_savepoint(&mut self, db: &mut TransactionDB) -> (r: Result<(), Error>)
        requires
            old(self).wf(),
            old(db).wf(),
            attached(old(self), old(db)),
        ensures
            final(self).wf(),
            final(db).wf(),
            attached(final(self), final(db)),
            final(self).spec_id() == old(self).spec_id(),
            final(db).families() == old(db).families(),
            final(db).path_view() == old(db).path_view(),
            final(db).next_id() == old(db).next_id(),
            same_foreign_locks(old(db).locks(), final(db).locks(), old(self).spec_id()),
            old(self).spec_state() != TxState::Active ==> (r matches Err(e) && e
                == Error::InvalidArgument) && *final(self) == *old(self) && *final(db) == *old(db),
            old(self).spec_state() == TxState::Active && old(self).marks().len() == 0 ==> (
            r matches Err(e) && e == Error::IOError) && *final(self) == *old(self) && *final(db)
                == *old(db),
            r is Ok <==> old(self).spec_state() == TxState::Active && old(self).marks().len() > 0,
            r is Ok ==> {
                let m = old(self).marks().last();
                &&& final(self).ops() == old(self).ops().take(m.0 as int)
                &&& final(self).tx_locks() == old(self).tx_locks().take(m.1 as int)
                &&& final(self).marks() == old(self).marks().drop_last()
                &&& final(self).spec_state() == TxState::Active
            },
    {
        if !(self.state == TxState::Active) {
            return Err(Error::InvalidArgument);
        }
        if self.savepoints.len() == 0 {
            return Err(Error::IOError);
        }
        let m = match self.savepoints.pop() {
            Some(m) => m,
            None => {
                proof {
                    assert(false);
                }
                (0, 0)
            },
        };
        proof {
            assert(m == old(self).marks().last());
            assert(old(self).marks()[old(self).marks().len() - 1] == m);
            assert(m.0 <= old(self).ops().len());
            assert(m.1 <= old(self).tx_locks().len());
            assert(self.savepoints@ =~= old(self).marks().drop_last());
        }
        self.batch.truncate_ops(m.0);
        Transaction::release_locks(&self.locks, self.id, db, m.1);
        self.locks.truncate(m.1);
        proof {
            let kept = old(self).tx_locks().take(m.1 as int);
            assert(self.tx_locks() == kept);
            assert forall|x: int|
                0 <= x < self.tx_locks().len() implies holds_exact(
                db.locks(),
                self.spec_id(),
                #[trigger] self.tx_locks()[x],
            ) by {
                assert(self.tx_locks()[x] == old(self).tx_locks()[x]);
            }
            assert forall|i: int|
                0 <= i < self.ops().len() implies crate::write_batch::op_ok(
                db.families(),
                #[trigger] self.ops()[i],
            ) by {
                assert(self.ops()[i] == old(self).ops()[i]);
            }
        }
        Ok(())
    }

    /// Atomically applies every staged mutation and releases every lock held;
    /// the transaction becomes committed and is spent.
    pub fn commit(&mut self, db: &mut TransactionDB) -> (r: Result<(), Error>)
        requires
            old(self).wf(),
            old(db).wf(),
            attached(old(self), old(db)),
        ensures
            final(self).wf(),
            final(db).wf(),
            attached(final(self), final(db)),
            final(self).spec_id() == old(self).spec_id(),
            final(db).path_view() == old(db).path_view(),
            final(db).next_id() == old(db).next_id(),
            same_foreign_locks(old(db).locks(), final(db).locks(), old(self).spec_id()),
            old(self).spec_state() != TxState::Active ==> (r matches Err(e) && e
                == Error::InvalidArgument) && *final(self) == *old(self) && *final(db) == *old(db),
            r is Ok <==> old(self).spec_state() == TxState::Active,
            r is Ok ==> {
                &&& family_maps(final(db).families()) == apply_batch(
                    family_maps(old(db).families()),
                    default_index(old(db).families()),
                    old(self).ops(),
                )
                &&& crate::registry::same_shape(old(db).families(), final(db).families())
                &&& final(self).spec_state() == TxState::Committed
                &&& final(self).ops().len() == 0
                &&& final(self).tx_locks().len() == 0
                &&& forall|i: int|
                    0 <= i < final(db).locks().len() ==> (#[trigger] final(db).locks()[i]).owner
                        != old(self).spec_id()
            },
    {
        if !(self.state == TxState::Active) {
            return Err(Error::InvalidArgument);
        }
        db.apply_staged(&self.batch);
        proof {
            let tl = self.locks@;
            assert(tl == old(self).tx_locks());
            assert(db.locks() == old(db).locks());
            assert forall|x: int| 0 <= x < tl.len() implies holds_exact(
                db.locks(),
                self.id,
                #[trigger] tl[x],
            ) by {
                assert(holds_exact(old(db).locks(), old(self).spec_id(), old(self).tx_locks()[x]));
            }
            assert forall|i: int|
                0 <= i < db.locks().len() && (#[trigger] db.locks()[i]).owner == self.id implies
                lock_known(tl, db.locks()[i]) by {
                assert(lock_known(old(self).tx_locks(), old(db).locks()[i]));
            }
            assert forall|x: int, y: int|
                0 <= x < y < tl.len() implies !((#[trigger] tl[x]).cf == (#[trigger] tl[y]).cf
                && tl[x].key@ == tl[y].key@) by {
                assert(old(self).tx_locks()[x] == tl[x] && old(self).tx_locks()[y] == tl[y]);
            }
        }
        Transaction::release_locks(&self.locks, self.id, db, 0);
        proof {
            assert(old(self).tx_locks().take(0) =~= Seq::<TxLock>::empty());
        }
        self.locks.clear();
        self.savepoints.clear();
        self.batch.truncate_ops(0);
        self.state = TxState::Committed;
        proof {
            assert(self.ops() =~= Seq::<OpView>::empty());
        }
        Ok(())
    }

    /// Discards every staged mutation and releases every lock held; the
    /// transaction is rolled back and spent.
    pub fn rollback(&mut self, db: &mut TransactionDB) -> (r: Result<(), Error>)
        requires
            old(self).wf(),
            old(db).wf(),
            attached(old(self), old(db)),
        ensures
            final(self).wf(),
            final(db).wf(),
            attached(final(self), final(db)),
            final(self).spec_id() == old(self).spec_id(),
            final(db).families() == old(db).families(),
            final(db).path_view() == old(db).path_view(),
            final(db).next_id() == old(db).next_id(),
            same_foreign_locks(old(db).locks(), final(db).locks(), old(self).spec_id()),
            old(self).spec_state() != TxState::Active ==> (r matches Err(e) && e
                == Error::InvalidArgument) && *final(self) == *old(self) && *final(db) == *old(db),
            r is Ok <==> old(self).spec_state() == TxState::Active,
            r is Ok ==> {
                &&& final(self).spec_state() == TxState::RolledBack
                &&& final(self).ops().len() == 0
                &&& final(self).tx_locks().len() == 0
                &&& forall|i: int|
                    0 <= i < final(db).locks().len() ==> (#[trigger] final(db).locks()[i]).owner
                        != old(self).spec_id()
            },
    {
        if !(self.state == TxState::Active) {
            return Err(Error::InvalidArgument);
        }
        proof {
            let tl = self.locks@;
            assert(tl == old(self).tx_locks());
            assert(db.locks() == old(db).locks());
            assert forall|x: int| 0 <= x < tl.len() implies holds_exact(
                db.locks(),
                self.id,
                #[trigger] tl[x],
            ) by {
                assert(holds_exact(old(db).locks(), old(self).spec_id(), old(self).tx_locks()[x]));
            }
            assert forall|i: int|
                0 <= i < db.locks().len() && (#[trigger] db.locks()[i]).owner == self.id implies
                lock_known(tl, db.locks()[i]) by {
                assert(lock_known(old(self).tx_locks(), old(db).locks()[i]));
            }
            assert forall|x: int, y: int|
                0 <= x < y < tl.len() implies !((#[trigger] tl[x]).cf == (#[trigger] tl[y]).cf
                && tl[x].key@ == tl[y].key@) by {
                assert(old(self).tx_locks()[x] == tl[x] && old(self).tx_locks()[y] == tl[y]);
            }
        }
        Transaction::release_locks(&self.locks, self.id, db, 0);
        proof {
            assert(old(self).tx_locks().take(0) =~= Seq::<TxLock>::empty());
        }
        self.locks.clear();
        self.savepoints.clear();
        self.batch.truncate_ops(0);
        self.state = TxState::RolledBack;
        proof {
            assert(self.ops() =~= Seq::<OpView>::empty());
        }
        Ok(())
    }

    /// Releases the transaction's resources in any state: staged mutations
    /// are discarded, locks released, and the transaction is destroyed.
    pub fn destroy(&mut self, db: &mut TransactionDB) -> (r: Result<(), Error>)
        requires
            old(self).wf(),
            old(db).wf(),
            attached(old(self), old(db)),
        ensures
            r is Ok,
            final(self).wf(),
            final(db).wf(),
            attached(final(self), final(db)),
            final(self).spec_id() == old(self).spec_id(),
            final(self).spec_state() == TxState::Destroyed,
            final(self).ops().len() == 0,
            final(self).tx_locks().len() == 0,
            final(db).families() == old(db).families(),
            final(db).path_view() == old(db).path_view(),
            final(db).next_id() == old(db).next_id(),
            same_foreign_locks(old(db).locks(), final(db).locks(), old(self).spec_id()),
            forall|i: int|
                0 <= i < final(db).locks().len() ==> (#[trigger] final(db).locks()[i]).owner
                    != old(self).spec_id(),
    {
        proof {
            let tl = self.locks@;
            assert(tl == old(self).tx_locks());
            assert(db.locks() == old(db).locks());
            assert forall|x: int| 0 <= x < tl.len() implies holds_exact(
                db.locks(),
                self.id,
                #[trigger] tl[x],
            ) by {
                assert(holds_exact(old(db).locks(), old(self).spec_id(), old(self).tx_locks()[x]));
            }
            assert forall|i: int|
                0 <= i < db.locks().len() && (#[trigger] db.locks()[i]).owner == self.id implies
                lock_known(tl, db.locks()[i]) by {
                assert(lock_known(old(self).tx_locks(), old(db).locks()[i]));
            }
            assert forall|x: int, y: int|
                0 <= x < y < tl.len() implies !((#[trigger] tl[x]).cf == (#[trigger] tl[y]).cf
                && tl[x].key@ == tl[y].key@) by {
                assert(old(self).tx_locks()[x] == tl[x] && old(self).tx_locks()[y] == tl[y]);
            }
        }
        Transaction::release_locks(&self.locks, self.id, db, 0);
        proof {
            assert(old(self).tx_locks().take(0) =~= Seq::<TxLock>::empty());
        }
        self.locks.clear();
        self.savepoints.clear();
        self.batch.truncate_ops(0);
        self.state = TxState::Destroyed;
        proof {
            assert(self.ops() =~= Seq::<OpView>::empty());
        }
        Ok(())
    }

    /// An iterator over the default family as this transaction sees it: the
    /// committed records with its staged mutations applied, under the read
    /// options' upper bound. It produces nothing until `set_mode` starts it.
    ///
    /// The records it scans are exactly the transaction's view: each scanned
    /// record passes the bound and holds the viewed value, and every viewed
    /// key under the bound is scanned, in ascending key order.
    pub fn create_iterator(&self, db: &TransactionDB, readopts: &ReadOptions) -> (r:
        TransactionDBIterator)
        requires
            self.wf(),
            db.wf(),
            attached(self, db),
        ensures
            r.wf(),
            r.stream() == Seq::<(Seq<u8>, Seq<u8>)>::empty(),
            crate::keyspace::sorted_strict(r.entries()),
            ({
                let m = overlay_maps(db, self)[default_index(db.families())];
                let u = readopts.upper_bound_view();
                &&& forall|j: int|
                    0 <= j < r.entries().len() ==> crate::keyspace::within(
                        #[trigger] r.entries()[j],
                        None,
                        u,
                    )
                &&& forall|j: int|
                    0 <= j < r.entries().len() ==> m.dom().contains((#[trigger] r.entries()[j]).0)
                        && m[r.entries()[j].0] == r.entries()[j].1
                &&& forall|k: Seq<u8>|
                    m.dom().contains(k) && crate::keyspace::within((k, m[k]), None::<Seq<u8>>, u)
                        ==> #[trigger] crate::keyspace::contains_key_at(r.entries(), k)
            }),
    {
        let fams = overlay_families(db, &self.batch);
        let d = locate_default(&fams);
        let upper: Option<&[u8]> = match &readopts.iterate_upper_bound {
            Some(u) => Some(u.as_slice()),
            None => None,
        };
        let raw = crate::iterator::DBRawIterator::from_family(&fams, d, None, upper);
        proof {
            crate::registry::lemma_default_index(fams@);
            assert(fams@[d as int].space.wf());
            crate::keyspace::lemma_filter_map_correspondence(
                fams@[d as int].space@,
                None,
                readopts.upper_bound_view(),
            );
            assert(family_maps(fams@)[d as int] == fams@[d as int].space.as_map());
        }
        DBIterator::from_cursor(raw)
    }

    /// An iterator over the given column family as this transaction sees it.
    /// The handle must denote a live family of the database: using a stale
    /// handle is the caller's responsibility.
    pub fn create_iterator_cf(
        &self,
        db: &TransactionDB,
        readopts: &ReadOptions,
        cf: ColumnFamily,
    ) -> (r: TransactionDBIterator)
        requires
            self.wf(),
            db.wf(),
            attached(self, db),
            db.cf_valid(cf),
        ensures
            r.wf(),
            r.stream() == Seq::<(Seq<u8>, Seq<u8>)>::empty(),
            crate::keyspace::sorted_strict(r.entries()),
            ({
                let m = overlay_maps(db, self)[cf.index as int];
                let u = readopts.upper_bound_view();
                &&& forall|j: int|
                    0 <= j < r.entries().len() ==> crate::keyspace::within(
                        #[trigger] r.entries()[j],
                        None,
                        u,
                    )
                &&& forall|j: int|
                    0 <= j < r.entries().len() ==> m.dom().contains((#[trigger] r.entries()[j]).0)
                        && m[r.entries()[j].0] == r.entries()[j].1
                &&& forall|k: Seq<u8>|
                    m.dom().contains(k) && crate::keyspace::within((k, m[k]), None::<Seq<u8>>, u)
                        ==> #[trigger] crate::keyspace::contains_key_at(r.entries(), k)
            }),
    {
        let fams = overlay_families(db, &self.batch);
        let upper: Option<&[u8]> = match &readopts.iterate_upper_bound {
            Some(u) => Some(u.as_slice()),
            None => None,
        };
        let raw = crate::iterator::DBRawIterator::from_family(&fams, cf.index, None, upper);
        proof {
            assert(fams@[cf.index as int].space.wf());
            crate::keyspace::lemma_filter_map_correspondence(
                fams@[cf.index as int].space@,
                None,
                readopts.upper_bound_view(),
            );
            assert(family_maps(fams@)[cf.index as int] == fams@[cf.index as int].space.as_map());
        }
        DBIterator::from_cursor(raw)
    }

    /// A snapshot fixed at the transaction's current view: the committed
    /// state, without this transaction's staged mutations.
    pub fn get_snapshot(&self, db: &TransactionDB) -> (r: Result<TransactionSnapshot, Error>)
        requires
            db.wf(),
        ensures
            r is Ok,
            r->Ok_0.wf(),
            r->Ok_0.default_map() == db.default_map(),
            forall|i: int|
                0 <= i < db.families().len() ==> r->Ok_0.family_map(i) == db.family_map(i),
    {
        Ok(TransactionSnapshot::new(db))
    }
}

} // verus!
