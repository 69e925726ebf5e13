use kvlayer::ColumnFamilyDescriptor;
use kvlayer::DB;
use kvlayer::DBVector;
use kvlayer::Error;
use kvlayer::IteratorMode;
use kvlayer::Options;

#[test]
fn external() {
    let path = "_rust_rocksdb_externaltest";
    {
        let mut db = DB::open_default(path).unwrap();
        let p = db.put(b"k1", b"v1111");
        assert!(p.is_ok());
        let r: Result<Option<DBVector>, Error> = db.get(b"k1");
        assert!(r.unwrap().unwrap().to_utf8().unwrap() == "v1111");
        assert!(db.delete(b"k1").is_ok());
        assert!(db.get(b"k1").unwrap().is_none());
    }
    let opts = Options::default();
    let result = DB::destroy(&opts, path);
    assert!(result.is_ok());
}

#[test]
fn iterator_test() {
    let path = "_rust_rocksdb_iteratortest";
    {
        let mut db = DB::open_default(path).unwrap();
        let p = db.put(b"k1", b"v1111");
        assert!(p.is_ok());
        let p = db.put(b"k2", b"v2222");
        assert!(p.is_ok());
        let p = db.put(b"k3", b"v3333");
        assert!(p.is_ok());
        let mut iter = db.iterator(IteratorMode::Start);
        while let Some((k, v)) = iter.next() {
            println!(
                "Hello {}: {}",
                std::str::from_utf8(&k).unwrap(),
                std::str::from_utf8(&v).unwrap()
            );
        }
    }
    let opts = Options::default();
    assert!(DB::destroy(&opts, path).is_ok());
}

#[test]
fn open_rejects_nul_in_path() {
    match DB::open_default("bad\0path") {
        Err(e) => assert_eq!(e, Error::PathEncodingError),
        Ok(_) => panic!("a path with a NUL byte must be refused"),
    }
}

#[test]
fn open_rejects_empty_path() {
    match DB::open_default("") {
        Err(e) => assert_eq!(e, Error::DirectoryCreationError),
        Ok(_) => panic!("an empty path must be refused"),
    }
}

#[test]
fn open_rejects_colliding_names() {
    let opts = Options::default();
    match DB::open_cf(&opts, "_collide_test", &["a", "a"]) {
        Err(e) => assert_eq!(e, Error::InvalidArgument),
        Ok(_) => panic!("two families of one name must be refused"),
    }
}

#[test]
fn default_family_always_present() {
    let opts = Options::default();
    let db = DB::open_cf(&opts, "_cf_default_test", &["extra"]).unwrap();
    assert!(db.cf_handle("default").is_some());
    assert!(db.cf_handle("extra").is_some());
    assert!(db.cf_handle("missing").is_none());
}

#[test]
fn column_family_round_trip() {
    let mut db = DB::open_default("_cf_round_trip").unwrap();
    let cf = db.create_cf("aux", &Options::default()).unwrap();
    assert!(db.put_cf(cf, b"k", b"v").is_ok());
    let got = db.get_cf(cf, b"k").unwrap().unwrap();
    assert_eq!(got.as_bytes(), b"v");
    assert!(db.get(b"k").unwrap().is_none());
    assert!(db.delete_cf(cf, b"k").is_ok());
    assert!(db.get_cf(cf, b"k").unwrap().is_none());
}

#[test]
fn create_existing_family_is_refused() {
    let mut db = DB::open_default("_cf_create_twice").unwrap();
    assert!(db.create_cf("aux", &Options::default()).is_ok());
    match db.create_cf("aux", &Options::default()) {
        Err(e) => assert_eq!(e, Error::InvalidArgument),
        Ok(_) => panic!("creating an existing family must be refused"),
    }
}

#[test]
fn drop_unknown_family_is_an_error() {
    let mut db = DB::open_default("_cf_drop_unknown").unwrap();
    match db.drop_cf("missing") {
        Err(e) => assert_eq!(e, Error::InvalidColumnFamily),
        Ok(_) => panic!("dropping an unknown family must be refused"),
    }
}

#[test]
fn dropped_family_handle_is_refused() {
    let mut db = DB::open_default("_cf_drop_use").unwrap();
    let cf = db.create_cf("aux", &Options::default()).unwrap();
    assert!(db.put_cf(cf, b"k", b"v").is_ok());
    assert!(db.drop_cf("aux").is_ok());
    match db.get_cf(cf, b"k") {
        Err(e) => assert_eq!(e, Error::InvalidColumnFamily),
        Ok(_) => panic!("a dropped family's handle must be refused"),
    }
}

#[test]
fn merge_appends_operands() {
    let mut db = DB::open_default("_merge_test").unwrap();
    assert!(db.merge(b"m", b"ab").is_ok());
    assert_eq!(db.get(b"m").unwrap().unwrap().as_bytes(), b"ab");
    assert!(db.merge(b"m", b"cd").is_ok());
    assert_eq!(db.get(b"m").unwrap().unwrap().as_bytes(), b"abcd");
}

#[test]
fn overwriting_put_replaces_value() {
    let mut db = DB::open_default("_overwrite_test").unwrap();
    assert!(db.put(b"k", b"one").is_ok());
    assert!(db.put(b"k", b"two").is_ok());
    assert_eq!(db.get(b"k").unwrap().unwrap().as_bytes(), b"two");
}

#[test]
fn empty_key_and_value_are_stored() {
    let mut db = DB::open_default("_empty_kv_test").unwrap();
    assert!(db.put(b"", b"v").is_ok());
    assert_eq!(db.get(b"").unwrap().unwrap().as_bytes(), b"v");
    assert!(db.put(b"k", b"").is_ok());
    assert_eq!(db.get(b"k").unwrap().unwrap().len(), 0);
}

#[test]
fn to_utf8_refuses_invalid_bytes() {
    let mut db = DB::open_default("_utf8_test").unwrap();
    assert!(db.put(b"bad", &[0xff, 0xfe]).is_ok());
    let v = db.get(b"bad").unwrap().unwrap();
    assert!(v.to_utf8().is_none());
    assert!(db.put(b"good", b"text").is_ok());
    let v = db.get(b"good").unwrap().unwrap();
    assert_eq!(v.to_utf8().unwrap(), "text");
}

#[test]
fn list_cf_reports_default() {
    let opts = Options::default();
    let names = DB::list_cf(&opts, "_list_test").unwrap();
    assert_eq!(names.len(), 1);
    assert_eq!(names[0], "default");
}

#[test]
fn repair_accepts_clean_path() {
    assert!(DB::repair(Options::default(), "_repair_test").is_ok());
    assert_eq!(DB::repair(Options::default(), "bad\0path").unwrap_err(), Error::PathEncodingError);
}

#[test]
fn path_is_kept() {
    let db = DB::open_default("_path_test").unwrap();
    assert_eq!(db.path(), "_path_test");
}

#[test]
fn compact_range_returns_nothing() {
    let mut db = DB::open_default("_compact_test").unwrap();
    assert!(db.put(b"a", b"1").is_ok());
    db.compact_range(Some(b"a"), Some(b"z"));
    db.compact_range(None, None);
    assert_eq!(db.get(b"a").unwrap().unwrap().as_bytes(), b"1");
}

#[test]
fn open_cf_descriptors_builds_each_family() {
    let opts = Options::default();
    let descs = vec![
        ColumnFamilyDescriptor::new("one", Options::default()),
        ColumnFamilyDescriptor::new("two", Options::default()),
    ];
    let mut db = DB::open_cf_descriptors(&opts, "_descs_test", descs).unwrap();
    let one = db.cf_handle("one").unwrap();
    let two = db.cf_handle("two").unwrap();
    assert!(db.put_cf(one, b"k", b"1").is_ok());
    assert!(db.put_cf(two, b"k", b"2").is_ok());
    assert_eq!(db.get_cf(one, b"k").unwrap().unwrap().as_bytes(), b"1");
    assert_eq!(db.get_cf(two, b"k").unwrap().unwrap().as_bytes(), b"2");
}
