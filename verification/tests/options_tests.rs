use kvlayer::BlockBasedIndexType;
use kvlayer::BlockBasedOptions;
use kvlayer::Options;
use kvlayer::ReadOptions;
use kvlayer::WriteOptions;
use kvlayer::order::KeyOrder;
use kvlayer::order::compare_keys;

#[test]
fn key_order_is_lexicographic() {
    assert_eq!(compare_keys(b"", b""), KeyOrder::Equal);
    assert_eq!(compare_keys(b"", b"a"), KeyOrder::Less);
    assert_eq!(compare_keys(b"a", b""), KeyOrder::Greater);
    assert_eq!(compare_keys(b"abc", b"abc"), KeyOrder::Equal);
    assert_eq!(compare_keys(b"ab", b"abc"), KeyOrder::Less);
    assert_eq!(compare_keys(b"abd", b"abc"), KeyOrder::Greater);
    assert_eq!(compare_keys(&[0x00], &[0xff]), KeyOrder::Less);
}

#[test]
fn write_options_record_flags() {
    let mut wo = WriteOptions::new();
    assert!(!wo.sync && !wo.wal_disabled);
    wo.set_sync(true);
    wo.disable_wal(true);
    assert!(wo.sync && wo.wal_disabled);
}

#[test]
fn read_options_record_flags() {
    let mut ro = ReadOptions::default();
    assert!(!ro.total_order_seek && !ro.prefix_same_as_start);
    assert!(ro.iterate_upper_bound.is_none());
    ro.set_total_order_seek(true);
    ro.set_prefix_same_as_start(true);
    ro.set_iterate_upper_bound(b"zz");
    assert!(ro.total_order_seek && ro.prefix_same_as_start);
    assert_eq!(ro.iterate_upper_bound.as_deref(), Some(&b"zz"[..]));
}

#[test]
fn database_options_record_flags() {
    let mut o = Options::default();
    assert!(!o.create_if_missing);
    o.create_if_missing(true);
    assert!(o.create_if_missing);
}

#[test]
fn block_based_options_record_settings() {
    let mut b = BlockBasedOptions::default();
    b.set_block_size(4096);
    b.set_lru_cache(1 << 20);
    b.set_bloom_filter(10, true);
    b.set_cache_index_and_filter_blocks(true);
    b.set_index_type(BlockBasedIndexType::HashSearch);
    assert_eq!(b.block_size, 4096);
    assert_eq!(b.lru_cache_size, 1 << 20);
    assert_eq!(b.bloom_bits_per_key, 10);
    assert!(b.bloom_block_based);
    assert!(b.cache_index_and_filter_blocks);
    assert_eq!(b.index_type, BlockBasedIndexType::HashSearch);
    b.disable_cache();
    assert!(b.no_block_cache);
}
