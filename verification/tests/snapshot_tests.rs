use kvlayer::DB;
use kvlayer::DBVector;
use kvlayer::Error;
use kvlayer::IteratorMode;
use kvlayer::Options;
use kvlayer::ReadOptions;

#[test]
fn snapshot_snapshot_test() {
    let path = "_rust_rocksdb_snapshottest";
    {
        let mut db = DB::open_default(path).unwrap();
        let p = db.put(b"k1", b"v1111");
        assert!(p.is_ok());

        let snap = db.snapshot();
        let r: Result<Option<DBVector>, Error> = snap.get(b"k1");
        assert!(r.unwrap().unwrap().to_utf8().unwrap() == "v1111");

        let p = db.put(b"k2", b"v2222");
        assert!(p.is_ok());

        assert!(db.get(b"k2").unwrap().is_some());
        assert!(snap.get(b"k2").unwrap().is_none());
    }
    let opts = Options::default();
    assert!(DB::destroy(&opts, path).is_ok());
}

#[test]
fn snapshot_transaction_snapshot_test() {
    let path = "_rust_rocksdb_snapshottest";
    {
        let mut db = DB::open_default(path).unwrap();
        let p = db.put(b"k1", b"v1111");
        assert!(p.is_ok());

        let snap = db.snapshot();
        let r: Result<Option<DBVector>, Error> = snap.get(b"k1");
        assert!(r.unwrap().unwrap().to_utf8().unwrap() == "v1111");

        let p = db.put(b"k2", b"v2222");
        assert!(p.is_ok());

        assert!(db.get(b"k2").unwrap().is_some());
        assert!(snap.get(b"k2").unwrap().is_none());
    }
    let opts = Options::default();
    assert!(DB::destroy(&opts, path).is_ok());
}

#[test]
fn snapshot_pins_overwritten_value() {
    let mut db = DB::open_default("_snap_overwrite_test").unwrap();
    assert!(db.put(b"k", b"v1").is_ok());
    let snap = db.snapshot();
    assert!(db.put(b"k", b"v2").is_ok());
    assert_eq!(snap.get(b"k").unwrap().unwrap().as_bytes(), b"v1");
    assert_eq!(db.get(b"k").unwrap().unwrap().as_bytes(), b"v2");
}

#[test]
fn read_options_carry_the_snapshot() {
    let mut db = DB::open_default("_snap_readopts_test").unwrap();
    assert!(db.put(b"k", b"v1").is_ok());
    let snap = db.snapshot();
    assert!(db.put(b"k", b"v2").is_ok());
    let mut ro = ReadOptions::default();
    ro.set_snapshot(&snap);
    assert_eq!(db.get_opt(b"k", &ro).unwrap().unwrap().as_bytes(), b"v1");
    assert_eq!(db.get_opt(b"k", &ReadOptions::default()).unwrap().unwrap().as_bytes(), b"v2");
}

#[test]
fn snapshot_iterator_sees_fixed_state() {
    let mut db = DB::open_default("_snap_iter_test").unwrap();
    assert!(db.put(b"a", b"1").is_ok());
    assert!(db.put(b"b", b"2").is_ok());
    let snap = db.snapshot();
    assert!(db.put(b"c", b"3").is_ok());
    let mut it = snap.iterator(IteratorMode::Start);
    let mut keys: Vec<Vec<u8>> = Vec::new();
    while let Some((k, _)) = it.next() {
        keys.push(k);
    }
    assert_eq!(keys, vec![b"a".to_vec(), b"b".to_vec()]);
}
