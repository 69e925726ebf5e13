use kvlayer::DB;
use kvlayer::DBVector;
use kvlayer::Error;
use kvlayer::Options;
use kvlayer::WriteBatch;

#[test]
fn writebatch_works() {
    let path = "_rust_rocksdb_writebacktest";
    {
        let mut db = DB::open_default(path).unwrap();
        {
            // test put
            let mut batch = WriteBatch::default();
            assert!(db.get(b"k1").unwrap().is_none());
            assert_eq!(batch.len(), 0);
            assert!(batch.is_empty());
            let _ = batch.put(b"k1", b"v1111");
            assert_eq!(batch.len(), 1);
            assert!(!batch.is_empty());
            assert!(db.get(b"k1").unwrap().is_none());
            let p = db.write(batch);
            assert!(p.is_ok());
            let r: Result<Option<DBVector>, Error> = db.get(b"k1");
            assert!(r.unwrap().unwrap().to_utf8().unwrap() == "v1111");
        }
        {
            // test delete
            let mut batch = WriteBatch::default();
            let _ = batch.delete(b"k1");
            assert_eq!(batch.len(), 1);
            assert!(!batch.is_empty());
            let p = db.write(batch);
            assert!(p.is_ok());
            assert!(db.get(b"k1").unwrap().is_none());
        }
        {
            // test size_in_bytes
            let mut batch = WriteBatch::default();
            let before = batch.size_in_bytes();
            let _ = batch.put(b"k1", b"v1234567890");
            let after = batch.size_in_bytes();
            assert!(before + 10 <= after);
        }
    }
    let opts = Options::default();
    assert!(DB::destroy(&opts, path).is_ok());
}

#[test]
fn batch_commit_is_atomic() {
    // one batch stages put(k1), put(k2), delete(k1): after the single write,
    // k1 is absent and k2 holds its value
    let mut db = DB::open_default("_batch_atomic_test").unwrap();
    let mut batch = WriteBatch::default();
    let _ = batch.put(b"k1", b"v1");
    let _ = batch.put(b"k2", b"v2");
    let _ = batch.delete(b"k1");
    assert_eq!(batch.len(), 3);
    assert!(db.get(b"k1").unwrap().is_none());
    assert!(db.get(b"k2").unwrap().is_none());
    assert!(db.write(batch).is_ok());
    assert!(db.get(b"k1").unwrap().is_none());
    assert_eq!(db.get(b"k2").unwrap().unwrap().as_bytes(), b"v2");
}

#[test]
fn batch_merge_and_families() {
    let mut db = DB::open_default("_batch_cf_test").unwrap();
    let cf = db.create_cf("aux", &Options::default()).unwrap();
    let mut batch = WriteBatch::default();
    let _ = batch.put_cf(cf, b"k", b"x");
    let _ = batch.merge_cf(cf, b"k", b"y");
    let _ = batch.merge(b"m", b"z");
    let _ = batch.delete_cf(cf, b"gone");
    assert!(db.write(batch).is_ok());
    assert_eq!(db.get_cf(cf, b"k").unwrap().unwrap().as_bytes(), b"xy");
    assert_eq!(db.get(b"m").unwrap().unwrap().as_bytes(), b"z");
}

#[test]
fn batch_with_stale_family_is_refused_whole() {
    let mut db = DB::open_default("_batch_stale_test").unwrap();
    let cf = db.create_cf("aux", &Options::default()).unwrap();
    assert!(db.drop_cf("aux").is_ok());
    let mut batch = WriteBatch::default();
    let _ = batch.put(b"fine", b"1");
    let _ = batch.put_cf(cf, b"bad", b"2");
    match db.write(batch) {
        Err(e) => assert_eq!(e, Error::InvalidColumnFamily),
        Ok(_) => panic!("a batch naming a dropped family must be refused"),
    }
    // atomicity: nothing of the batch landed
    assert!(db.get(b"fine").unwrap().is_none());
}

#[test]
fn write_without_wal_keeps_atomicity() {
    let mut db = DB::open_default("_batch_nowal_test").unwrap();
    let mut batch = WriteBatch::default();
    let _ = batch.put(b"a", b"1");
    let _ = batch.put(b"b", b"2");
    assert!(db.write_without_wal(batch).is_ok());
    assert_eq!(db.get(b"a").unwrap().unwrap().as_bytes(), b"1");
    assert_eq!(db.get(b"b").unwrap().unwrap().as_bytes(), b"2");
}
