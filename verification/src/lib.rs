//! A client access layer over an ordered key-value storage engine.
//!
//! The crate models the engine's sorted keyspace directly, so that the
//! layer's primitives — database handles, column-family partitions, atomic
//! write batches, cursors and typed iterators, snapshots, and pessimistic
//! transactions with locking and savepoints — carry verified contracts:
//! every read, write, scan and commit is specified against a mathematical
//! view of the store and proved correct.

pub mod block_based_options;
pub mod column_family;
pub mod db;
pub mod dbvector;
pub mod error;
pub mod iterator;
pub mod keyspace;
pub mod options;
pub mod order;
pub mod read_options;
pub mod registry;
pub mod snapshot;
pub mod snapshot_transaction;
pub mod transaction;
pub mod transaction_db;
pub mod transaction_db_options;
pub mod transaction_options;
pub mod write_batch;
pub mod write_options;

pub use block_based_options::BlockBasedIndexType;
pub use block_based_options::BlockBasedOptions;
pub use column_family::ColumnFamily;
pub use column_family::ColumnFamilyDescriptor;
pub use db::DB;
pub use dbvector::DBVector;
pub use error::Error;
pub use iterator::DBIterator;
pub use iterator::DBRawIterator;
pub use iterator::Direction;
pub use iterator::IteratorMode;
pub use iterator::KVBytes;
pub use keyspace::KeySpace;
pub use options::Options;
pub use order::lex_le;
pub use order::lex_lt;
pub use read_options::ReadOptions;
pub use snapshot::Snapshot;
pub use snapshot_transaction::TransactionSnapshot;
pub use transaction::Transaction;
pub use transaction::TxState;
pub use transaction_db::LockEntry;
pub use transaction_db::TransactionDB;
pub use transaction_db::TransactionDBIterator;
pub use transaction_db::TransactionDBRawIterator;
pub use transaction_db_options::TransactionDBOptions;
pub use transaction_options::TransactionOptions;
pub use write_batch::WriteBatch;
pub use write_options::WriteOptions;
