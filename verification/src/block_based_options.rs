//! Configuration of the engine's block-based table format: block size,
//! caching, bloom filters and the index used for table lookups. Opaque
//! configuration, recorded and passed through unchanged.

use vstd::prelude::*;

verus! {

/// The index a table uses for lookups.
#[derive(Clone, Copy, Debug, PartialEq, Eq, Structural)]
pub enum BlockBasedIndexType {
    /// A binary-searchable index over the block ranges.
    BinarySearch,
    /// A hash index over key prefixes.
    HashSearch,
    /// A two-level partitioned index.
    TwoLevelIndexSearch,
}

/// Options for the block-based table format.
pub struct BlockBasedOptions {
    /// Size of one data block, in bytes.
    pub block_size: usize,
    /// Capacity of the block cache, in bytes.
    pub lru_cache_size: usize,
    /// Serve reads without a block cache.
    pub no_block_cache: bool,
    /// Bloom-filter bits per key; zero leaves filters off.
    pub bloom_bits_per_key: i32,
    /// Whether the bloom filter is built per block rather than per table.
    pub bloom_block_based: bool,
    /// Keep index and filter blocks in the block cache.
    pub cache_index_and_filter_blocks: bool,
    /// The table lookup index.
    pub index_type: BlockBasedIndexType,
}

impl BlockBasedOptions {
    /// Sets the size of one data block.
    pub fn set_block_size(&mut self, size: usize)
        ensures
            *final(self) == (BlockBasedOptions { block_size: size, ..*old(self) }),
    {
        self.block_size = size;
    }

    /// Gives the table a block cache of the given capacity.
    pub fn set_lru_cache(&mut self, size: usize)
        ensures
            *final(self) == (BlockBasedOptions { lru_cache_size: size, ..*old(self) }),
    {
        self.lru_cache_size = size;
    }

    /// Serves reads without a block cache.
    pub fn disable_cache(&mut self)
        ensures
            *final(self) == (BlockBasedOptions { no_block_cache: true, ..*old(self) }),
    {
        self.no_block_cache = true;
    }

    /// Gives the table a bloom filter, per block or per table.
    pub fn set_bloom_filter(&mut self, bits_per_key: i32, block_based: bool)
        ensures
            *final(self) == (BlockBasedOptions {
                bloom_bits_per_key: bits_per_key,
                bloom_block_based: block_based,
                ..*old(self)
            }),
    {
        self.bloom_bits_per_key = bits_per_key;
        self.bloom_block_based = block_based;
    }

    /// Keeps index and filter blocks in the block cache.
    pub fn set_cache_index_and_filter_blocks(&mut self, v: bool)
        ensures
            *final(self) == (BlockBasedOptions { cache_index_and_filter_blocks: v, ..*old(self) }),
    {
        self.cache_index_and_filter_blocks = v;
    }

    /// Defines the index type to be used for table lookups.
    pub fn set_index_type(&mut self, index_type: BlockBasedIndexType)
        ensures
            *final(self) == (BlockBasedOptions { index_type: index_type, ..*old(self) }),
    {
        self.index_type = index_type;
    }
}

impl Default for BlockBasedOptions {
    fn default() -> (r: BlockBasedOptions)
        ensures
            r.block_size == 0,
            r.lru_cache_size == 0,
            !r.no_block_cache,
            r.bloom_bits_per_key == 0,
            !r.bloom_block_based,
            !r.cache_index_and_filter_blocks,
            r.index_type == BlockBasedIndexType::BinarySearch,
    {
        BlockBasedOptions {
            block_size: 0,
            lru_cache_size: 0,
            no_block_cache: false,
            bloom_bits_per_key: 0,
            bloom_block_based: false,
            cache_index_and_filter_blocks: false,
            index_type: BlockBasedIndexType::BinarySearch,
        }
    }
}

} // verus!
