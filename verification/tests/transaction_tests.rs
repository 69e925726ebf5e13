use kvlayer::Error;
use kvlayer::IteratorMode;
use kvlayer::Options;
use kvlayer::ReadOptions;
use kvlayer::TransactionDB;
use kvlayer::TransactionDBOptions;
use kvlayer::TransactionOptions;
use kvlayer::WriteBatch;
use kvlayer::WriteOptions;

fn open_txdb(path: &str) -> TransactionDB {
    TransactionDB::open_default(path).unwrap()
}

#[test]
fn transactional_round_trip() {
    let mut db = open_txdb("_tx_round_trip");
    let wo = WriteOptions::default();
    let to = TransactionOptions::default();
    let mut tx = db.begin(&wo, &to).unwrap();
    assert!(tx.put(&mut db, b"k", b"v").is_ok());
    // staged but uncommitted: the transaction sees it, the handle does not
    assert_eq!(tx.get(&db, b"k").unwrap().unwrap().as_bytes(), b"v");
    assert!(db.get(b"k").unwrap().is_none());
    assert!(tx.commit(&mut db).is_ok());
    assert_eq!(db.get(b"k").unwrap().unwrap().as_bytes(), b"v");
}

#[test]
fn rollback_discards_staged_writes() {
    let mut db = open_txdb("_tx_rollback");
    let wo = WriteOptions::default();
    let to = TransactionOptions::default();
    let mut tx = db.begin(&wo, &to).unwrap();
    assert!(tx.put(&mut db, b"k", b"v").is_ok());
    assert!(tx.rollback(&mut db).is_ok());
    assert!(db.get(b"k").unwrap().is_none());
}

#[test]
fn finished_transaction_refuses_work() {
    let mut db = open_txdb("_tx_spent");
    let wo = WriteOptions::default();
    let to = TransactionOptions::default();
    let mut tx = db.begin(&wo, &to).unwrap();
    assert!(tx.commit(&mut db).is_ok());
    assert_eq!(tx.put(&mut db, b"k", b"v").unwrap_err(), Error::InvalidArgument);
    assert_eq!(tx.commit(&mut db).unwrap_err(), Error::InvalidArgument);
    assert!(tx.destroy(&mut db).is_ok());
}

#[test]
fn empty_key_is_invalid_argument() {
    let mut db = open_txdb("_tx_empty_key");
    let wo = WriteOptions::default();
    let to = TransactionOptions::default();
    let mut tx = db.begin(&wo, &to).unwrap();
    assert_eq!(tx.put(&mut db, b"", b"v").unwrap_err(), Error::InvalidArgument);
    assert_eq!(tx.delete(&mut db, b"").unwrap_err(), Error::InvalidArgument);
    assert_eq!(tx.merge(&mut db, b"", b"v").unwrap_err(), Error::InvalidArgument);
}

#[test]
fn exclusive_lock_blocks_second_transaction() {
    // two transactions race for one key: the second fails with a lock
    // timeout until the first commits
    let mut db = open_txdb("_tx_lock_conflict");
    assert!(db.put(b"k", b"v0").is_ok());
    let wo = WriteOptions::default();
    let to = TransactionOptions::default();
    let mut t1 = db.begin(&wo, &to).unwrap();
    let mut t2 = db.begin(&wo, &to).unwrap();

    let got = t1.get_for_update(&mut db, b"k", true).unwrap().unwrap();
    assert_eq!(got.as_bytes(), b"v0");

    assert_eq!(t2.get_for_update(&mut db, b"k", true).unwrap_err(), Error::LockTimeout);
    assert_eq!(t2.put(&mut db, b"k", b"v2").unwrap_err(), Error::LockTimeout);

    assert!(t1.put(&mut db, b"k", b"v1").is_ok());
    assert!(t1.commit(&mut db).is_ok());
    assert_eq!(db.get(b"k").unwrap().unwrap().as_bytes(), b"v1");

    // the lock is gone: the second transaction proceeds
    assert_eq!(t2.get_for_update(&mut db, b"k", true).unwrap().unwrap().as_bytes(), b"v1");
    assert!(t2.put(&mut db, b"k", b"v2").is_ok());
    assert!(t2.commit(&mut db).is_ok());
    assert_eq!(db.get(b"k").unwrap().unwrap().as_bytes(), b"v2");
}

#[test]
fn shared_locks_coexist_but_block_writers() {
    let mut db = open_txdb("_tx_shared_locks");
    assert!(db.put(b"k", b"v").is_ok());
    let wo = WriteOptions::default();
    let to = TransactionOptions::default();
    let mut t1 = db.begin(&wo, &to).unwrap();
    let mut t2 = db.begin(&wo, &to).unwrap();
    assert!(t1.get_for_update(&mut db, b"k", false).is_ok());
    assert!(t2.get_for_update(&mut db, b"k", false).is_ok());
    // an exclusive request now conflicts with the other holder
    assert_eq!(t1.get_for_update(&mut db, b"k", true).unwrap_err(), Error::LockTimeout);
    assert!(t1.rollback(&mut db).is_ok());
    assert!(t2.rollback(&mut db).is_ok());
}

#[test]
fn locked_key_refuses_direct_writes() {
    let mut db = open_txdb("_tx_direct_write_lock");
    let wo = WriteOptions::default();
    let to = TransactionOptions::default();
    let mut tx = db.begin(&wo, &to).unwrap();
    assert!(tx.put(&mut db, b"k", b"v").is_ok());
    assert_eq!(db.put(b"k", b"other").unwrap_err(), Error::LockTimeout);
    let mut batch = WriteBatch::default();
    let _ = batch.put(b"k", b"other");
    assert_eq!(db.write(batch).unwrap_err(), Error::LockTimeout);
    assert!(tx.commit(&mut db).is_ok());
    assert!(db.put(b"k", b"other").is_ok());
}

#[test]
fn savepoint_rollback_keeps_earlier_writes() {
    // put k1, mark, put k2, roll back to the mark: k1 stays staged, k2 is
    // gone, and the transaction is still active
    let mut db = open_txdb("_tx_savepoint");
    let wo = WriteOptions::default();
    let to = TransactionOptions::default();
    let mut tx = db.begin(&wo, &to).unwrap();
    assert!(tx.put(&mut db, b"k1", b"v1").is_ok());
    assert!(tx.set_savepoint().is_ok());
    assert!(tx.put(&mut db, b"k2", b"v2").is_ok());
    assert!(tx.rollback_to_savepoint(&mut db).is_ok());
    assert_eq!(tx.get(&db, b"k1").unwrap().unwrap().as_bytes(), b"v1");
    assert!(tx.get(&db, b"k2").unwrap().is_none());
    assert!(tx.commit(&mut db).is_ok());
    assert_eq!(db.get(b"k1").unwrap().unwrap().as_bytes(), b"v1");
    assert!(db.get(b"k2").unwrap().is_none());
}

#[test]
fn savepoint_rollback_without_mark_fails() {
    let mut db = open_txdb("_tx_no_savepoint");
    let wo = WriteOptions::default();
    let to = TransactionOptions::default();
    let mut tx = db.begin(&wo, &to).unwrap();
    assert_eq!(tx.rollback_to_savepoint(&mut db).unwrap_err(), Error::IOError);
    assert!(tx.rollback(&mut db).is_ok());
}

#[test]
fn savepoint_rollback_releases_locks() {
    let mut db = open_txdb("_tx_savepoint_locks");
    let wo = WriteOptions::default();
    let to = TransactionOptions::default();
    let mut t1 = db.begin(&wo, &to).unwrap();
    let mut t2 = db.begin(&wo, &to).unwrap();
    assert!(t1.set_savepoint().is_ok());
    assert!(t1.put(&mut db, b"k", b"v").is_ok());
    assert_eq!(t2.get_for_update(&mut db, b"k", true).unwrap_err(), Error::LockTimeout);
    assert!(t1.rollback_to_savepoint(&mut db).is_ok());
    assert!(t2.get_for_update(&mut db, b"k", true).is_ok());
    assert!(t1.rollback(&mut db).is_ok());
    assert!(t2.rollback(&mut db).is_ok());
}

#[test]
fn transaction_ids_are_granted_in_order() {
    let mut db = open_txdb("_tx_ids");
    let wo = WriteOptions::default();
    let to = TransactionOptions::default();
    let mut t1 = db.begin(&wo, &to).unwrap();
    let mut t2 = db.begin_with_txn(&wo, &to, &t1).unwrap();
    let id1 = t1.get_id().unwrap();
    let id2 = t2.get_id().unwrap();
    assert!(id1 < id2);
    assert!(t1.rollback(&mut db).is_ok());
    assert!(t2.rollback(&mut db).is_ok());
}

#[test]
fn transaction_snapshot_is_committed_state() {
    let mut db = open_txdb("_tx_snapshot");
    assert!(db.put(b"k", b"v0").is_ok());
    let wo = WriteOptions::default();
    let to = TransactionOptions::default();
    let mut tx = db.begin(&wo, &to).unwrap();
    assert!(tx.put(&mut db, b"k", b"v1").is_ok());
    let snap = tx.get_snapshot(&db).unwrap();
    // the snapshot holds the committed state, not the staged mutation
    assert_eq!(snap.get(b"k").unwrap().unwrap().as_bytes(), b"v0");
    assert!(tx.commit(&mut db).is_ok());
    assert_eq!(snap.get(b"k").unwrap().unwrap().as_bytes(), b"v0");
    assert_eq!(db.get(b"k").unwrap().unwrap().as_bytes(), b"v1");
}

#[test]
fn transaction_iterator_sees_staged_state() {
    let mut db = open_txdb("_tx_iterator");
    assert!(db.put(b"a", b"1").is_ok());
    assert!(db.put(b"c", b"3").is_ok());
    let wo = WriteOptions::default();
    let to = TransactionOptions::default();
    let mut tx = db.begin(&wo, &to).unwrap();
    assert!(tx.put(&mut db, b"b", b"2").is_ok());
    assert!(tx.delete(&mut db, b"c").is_ok());
    let mut it = tx.create_iterator(&db, &ReadOptions::default());
    assert!(it.next().is_none());
    it.set_mode(IteratorMode::Start);
    let mut keys: Vec<Vec<u8>> = Vec::new();
    while let Some((k, _)) = it.next() {
        keys.push(k);
    }
    assert_eq!(keys, vec![b"a".to_vec(), b"b".to_vec()]);
    assert!(tx.rollback(&mut db).is_ok());
}

#[test]
fn txdb_iterators_and_families() {
    let mut db = open_txdb("_txdb_iter");
    assert!(db.put(b"a", b"1").is_ok());
    assert!(db.put(b"b", b"2").is_ok());
    let mut it = db.iterator(IteratorMode::Start);
    let mut n = 0;
    while let Some(_) = it.next() {
        n += 1;
    }
    assert_eq!(n, 2);
    let cf = db.create_cf("aux", &Options::default()).unwrap();
    assert!(db.put_cf(cf, b"x", b"9").is_ok());
    assert_eq!(db.get_cf(cf, b"x").unwrap().unwrap().as_bytes(), b"9");
    let mut raw = db.raw_iterator();
    raw.seek_to_first();
    assert_eq!(raw.key().unwrap(), b"a".to_vec());
    let mut pre = db.prefix_iterator(b"a");
    let first = pre.next().unwrap();
    assert_eq!(first.0, b"a".to_vec());
}

#[test]
fn txdb_options_record_settings() {
    let mut topts = TransactionDBOptions::default();
    topts.set_max_num_locks(100);
    topts.set_num_stripes(16);
    topts.set_transaction_lock_timeout(50);
    topts.set_default_lock_timeout(75);
    assert_eq!(topts.max_num_locks, 100);
    assert_eq!(topts.num_stripes, 16);
    assert_eq!(topts.transaction_lock_timeout, 50);
    assert_eq!(topts.default_lock_timeout, 75);

    let mut txo = TransactionOptions::new();
    txo.set_snapshot(true);
    txo.set_deadlock_detect(true);
    txo.set_lock_timeout(10);
    txo.set_expiration(20);
    txo.set_deadlock_detect_depth(5);
    txo.set_max_write_batch_size(1024);
    assert!(txo.snapshot);
    assert!(txo.deadlock_detect);
    assert_eq!(txo.lock_timeout, 10);
    assert_eq!(txo.expiration, 20);
    assert_eq!(txo.deadlock_detect_depth, 5);
    assert_eq!(txo.max_write_batch_size, 1024);
}

#[test]
fn txdb_admin_calls() {
    assert!(TransactionDB::destroy(&Options::default(), "_txdb_admin").is_ok());
    assert!(TransactionDB::repair(Options::default(), "_txdb_admin").is_ok());
    let names = TransactionDB::list_cf(&Options::default(), "_txdb_admin").unwrap();
    assert_eq!(names, vec!["default".to_string()]);
    let db = open_txdb("_txdb_admin");
    assert_eq!(db.path(), "_txdb_admin");
}

#[test]
fn txdb_direct_ops_without_locks() {
    let mut db = open_txdb("_txdb_direct");
    assert!(db.put(b"k", b"v").is_ok());
    assert!(db.merge(b"k", b"w").is_ok());
    assert_eq!(db.get(b"k").unwrap().unwrap().as_bytes(), b"vw");
    assert!(db.delete(b"k").is_ok());
    assert!(db.get(b"k").unwrap().is_none());
    let cf = db.create_cf("aux", &Options::default()).unwrap();
    assert!(db.put_cf(cf, b"x", b"1").is_ok());
    assert!(db.delete_cf(cf, b"x").is_ok());
    assert!(db.get_cf(cf, b"x").unwrap().is_none());
}

#[test]
fn transaction_reads_families() {
    let mut db = open_txdb("_tx_cf_reads");
    let cf = db.create_cf("aux", &Options::default()).unwrap();
    assert!(db.put_cf(cf, b"k", b"v0").is_ok());
    let wo = WriteOptions::default();
    let to = TransactionOptions::default();
    let mut tx = db.begin(&wo, &to).unwrap();
    assert_eq!(tx.get_cf(&db, cf, b"k").unwrap().unwrap().as_bytes(), b"v0");
    assert!(tx.put_cf(&mut db, cf, b"k", b"v1").is_ok());
    assert_eq!(tx.get_cf(&db, cf, b"k").unwrap().unwrap().as_bytes(), b"v1");
    assert_eq!(db.get_cf(cf, b"k").unwrap().unwrap().as_bytes(), b"v0");
    assert!(tx.delete_cf(&mut db, cf, b"k").is_ok());
    assert!(tx.get_cf(&db, cf, b"k").unwrap().is_none());
    assert!(tx.commit(&mut db).is_ok());
    assert!(db.get_cf(cf, b"k").unwrap().is_none());
}

#[test]
fn transaction_iterator_cf_sees_staged_state() {
    let mut db = open_txdb("_tx_iter_cf");
    let cf = db.create_cf("aux", &Options::default()).unwrap();
    assert!(db.put_cf(cf, b"a", b"1").is_ok());
    let wo = WriteOptions::default();
    let to = TransactionOptions::default();
    let mut tx = db.begin(&wo, &to).unwrap();
    assert!(tx.put_cf(&mut db, cf, b"b", b"2").is_ok());
    let mut it = tx.create_iterator_cf(&db, &ReadOptions::default(), cf);
    it.set_mode(IteratorMode::Start);
    let mut keys: Vec<Vec<u8>> = Vec::new();
    while let Some((k, _)) = it.next() {
        keys.push(k);
    }
    assert_eq!(keys, vec![b"a".to_vec(), b"b".to_vec()]);
    assert!(tx.rollback(&mut db).is_ok());
}
