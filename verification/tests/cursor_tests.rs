use kvlayer::DB;
use kvlayer::Direction;
use kvlayer::IteratorMode;

fn sample_db(path: &str) -> DB {
    let mut db = DB::open_default(path).unwrap();
    assert!(db.put(b"aa", b"1").is_ok());
    assert!(db.put(b"bb", b"2").is_ok());
    assert!(db.put(b"dd", b"4").is_ok());
    db
}

fn drain(it: &mut kvlayer::DBIterator) -> Vec<(Vec<u8>, Vec<u8>)> {
    let mut out = Vec::new();
    while let Some(kv) = it.next() {
        out.push(kv);
    }
    out
}

#[test]
fn forward_iteration_is_ascending() {
    let db = sample_db("_iter_asc_test");
    let mut it = db.iterator(IteratorMode::Start);
    let got = drain(&mut it);
    let keys: Vec<Vec<u8>> = got.iter().map(|kv| kv.0.clone()).collect();
    assert_eq!(keys, vec![b"aa".to_vec(), b"bb".to_vec(), b"dd".to_vec()]);
    for w in keys.windows(2) {
        assert!(w[0] < w[1]);
    }
}

#[test]
fn reverse_iteration_is_descending() {
    let db = sample_db("_iter_desc_test");
    let mut it = db.iterator(IteratorMode::End);
    let got = drain(&mut it);
    let keys: Vec<Vec<u8>> = got.iter().map(|kv| kv.0.clone()).collect();
    assert_eq!(keys, vec![b"dd".to_vec(), b"bb".to_vec(), b"aa".to_vec()]);
}

#[test]
fn seek_to_existing_key_yields_it_first() {
    // seek-then-iterate: the first produced element is the sought key itself
    let db = sample_db("_iter_seek_hit_test");
    let mut it = db.iterator(IteratorMode::From(b"bb", Direction::Forward));
    let first = it.next().unwrap();
    assert_eq!(first.0, b"bb".to_vec());
    assert_eq!(first.1, b"2".to_vec());
}

#[test]
fn seek_to_missing_key_yields_follower() {
    let db = sample_db("_iter_seek_miss_test");
    let mut it = db.iterator(IteratorMode::From(b"cc", Direction::Forward));
    let first = it.next().unwrap();
    assert_eq!(first.0, b"dd".to_vec());
}

#[test]
fn seek_reverse_lands_at_or_before() {
    // a missing key starts reverse iteration from the key before it, no skip
    let db = sample_db("_iter_seek_rev_test");
    let mut it = db.iterator(IteratorMode::From(b"cc", Direction::Reverse));
    let got = drain(&mut it);
    let keys: Vec<Vec<u8>> = got.iter().map(|kv| kv.0.clone()).collect();
    assert_eq!(keys, vec![b"bb".to_vec(), b"aa".to_vec()]);
}

#[test]
fn set_mode_restarts_iteration() {
    let db = sample_db("_iter_restart_test");
    let mut it = db.iterator(IteratorMode::Start);
    assert!(it.next().is_some());
    it.set_mode(IteratorMode::Start);
    let got = drain(&mut it);
    assert_eq!(got.len(), 3);
    assert!(it.next().is_none());
}

#[test]
fn raw_cursor_state_machine() {
    let db = sample_db("_raw_cursor_test");
    let mut c = db.raw_iterator();
    assert!(!c.valid());
    assert!(c.key().is_none());

    c.seek_to_first();
    assert!(c.valid());
    assert_eq!(c.key().unwrap(), b"aa".to_vec());
    assert_eq!(c.value().unwrap(), b"1".to_vec());

    c.next();
    assert_eq!(c.key().unwrap(), b"bb".to_vec());
    c.prev();
    assert_eq!(c.key().unwrap(), b"aa".to_vec());
    c.prev();
    assert!(!c.valid());

    c.seek_to_last();
    assert_eq!(c.key().unwrap(), b"dd".to_vec());
    c.next();
    assert!(!c.valid());

    c.seek(b"bb");
    assert_eq!(c.key().unwrap(), b"bb".to_vec());
    c.seek(b"cc");
    assert_eq!(c.key().unwrap(), b"dd".to_vec());
    c.seek(b"zz");
    assert!(!c.valid());

    c.seek_for_prev(b"cc");
    assert_eq!(c.key().unwrap(), b"bb".to_vec());
    c.seek_for_prev(b"a");
    assert!(!c.valid());
}

#[test]
fn prefix_iterator_stays_in_prefix() {
    let mut db = DB::open_default("_prefix_iter_test").unwrap();
    assert!(db.put(b"pa1", b"1").is_ok());
    assert!(db.put(b"pa2", b"2").is_ok());
    assert!(db.put(b"pb1", b"3").is_ok());
    let mut it = db.prefix_iterator(b"pa");
    let mut keys: Vec<Vec<u8>> = Vec::new();
    while let Some((k, _)) = it.next() {
        keys.push(k);
    }
    assert_eq!(keys, vec![b"pa1".to_vec(), b"pa2".to_vec()]);
}

#[test]
fn upper_bound_stops_iteration() {
    let db = sample_db("_upper_bound_test");
    let mut ro = kvlayer::ReadOptions::default();
    ro.set_iterate_upper_bound(b"cc");
    let mut it = kvlayer::DBIterator::new(&db, &ro, IteratorMode::Start);
    let got = drain(&mut it);
    let keys: Vec<Vec<u8>> = got.iter().map(|kv| kv.0.clone()).collect();
    assert_eq!(keys, vec![b"aa".to_vec(), b"bb".to_vec()]);
}

#[test]
fn iterator_cf_scans_that_family() {
    let mut db = DB::open_default("_iter_cf_test").unwrap();
    let cf = db.create_cf("aux", &kvlayer::Options::default()).unwrap();
    assert!(db.put_cf(cf, b"x", b"9").is_ok());
    assert!(db.put(b"y", b"0").is_ok());
    let mut it = db.iterator_cf(cf, IteratorMode::Start).unwrap();
    let got = drain(&mut it);
    assert_eq!(got, vec![(b"x".to_vec(), b"9".to_vec())]);
}

#[test]
fn proper_prefix_comes_first() {
    let mut db = DB::open_default("_prefix_order_test").unwrap();
    assert!(db.put(b"ab", b"2").is_ok());
    assert!(db.put(b"a", b"1").is_ok());
    assert!(db.put(b"abc", b"3").is_ok());
    let mut it = db.iterator(IteratorMode::Start);
    let mut keys: Vec<Vec<u8>> = Vec::new();
    while let Some((k, _)) = it.next() {
        keys.push(k);
    }
    assert_eq!(keys, vec![b"a".to_vec(), b"ab".to_vec(), b"abc".to_vec()]);
}

#[test]
fn borrowed_accessors_match_copies() {
    let db = sample_db("_raw_borrow_test");
    let mut c = db.raw_iterator();
    assert!(c.key_inner().is_none());
    c.seek(b"bb");
    assert_eq!(c.key_inner().unwrap(), &b"bb"[..]);
    assert_eq!(c.value_inner().unwrap(), &b"2"[..]);
    assert_eq!(c.key().unwrap(), b"bb".to_vec());
    assert_eq!(c.value().unwrap(), b"2".to_vec());
}

#[test]
fn cursor_cf_checks_the_handle() {
    let mut db = DB::open_default("_raw_cf_test").unwrap();
    let cf = db.create_cf("aux", &kvlayer::Options::default()).unwrap();
    assert!(db.raw_iterator_cf(cf).is_ok());
    assert!(db.drop_cf("aux").is_ok());
    assert!(db.raw_iterator_cf(cf).is_err());
    let stale = kvlayer::ColumnFamily { index: 99 };
    assert!(db.full_iterator_cf(stale, IteratorMode::Start).is_err());
}

#[test]
fn full_iterator_matches_iterator() {
    let db = sample_db("_full_iter_test");
    let mut a = db.iterator(IteratorMode::End);
    let mut b = db.full_iterator(IteratorMode::End);
    assert_eq!(drain(&mut a), drain(&mut b));
}
