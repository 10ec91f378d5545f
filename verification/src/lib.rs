//! A page-oriented heap storage engine with multi-version concurrency control.
//!
//! Tuples live in slotted pages; each tuple carries the ids of the
//! transactions that created and obsoleted it, and readers filter tuples
//! through a snapshot of the transaction table.

pub mod btree;
pub mod codec;
pub mod constants;
pub mod error;
pub mod fsm;
pub mod guarantees;
pub mod heap;
pub mod heap_model;
pub mod heap_tuple;
pub mod page;
pub mod relation;
pub mod storage;
pub mod toast;
pub mod transaction;
pub mod types;
pub mod visibility;
pub mod visibility_map;
pub mod wal;

pub use btree::{BTreeIndex, BTreeKey, BTreePage};
pub use error::HeapError;
pub use fsm::FreeSpaceMap;
pub use heap::{HeapEngine, HeapRelation};
pub use heap_tuple::{heap_tuple_get_struct, HeapTuple, HeapTupleHeaderData};
pub use page::{ItemIdData, Page, PageHeaderData};
pub use relation::Relation;
pub use storage::Storage;
pub use toast::{ToastChunk, ToastPointer, ToastTable};
pub use transaction::{Transaction, TransactionManager};
pub use types::{
    BlockId, CommandId, DatabaseId, HeapTupleStatus, ItemPointerData, LockMode, Oid, RelationId,
    Snapshot, TablespaceId, TransactionId, UpdateResult, VisibilityMode,
};
pub use visibility::Visibility;
pub use visibility_map::VisibilityMap;
pub use wal::{XLogRecord, XLogRecordType, WAL};
