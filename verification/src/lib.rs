//! A sharded object pool.
//!
//! A pool keeps a bounded cache of pre-built items, split across
//! independently bounded shards. Pulls and returns probe the shards in
//! round-robin order and never block: an exhausted pool reports empty
//! (or falls back to a caller-supplied factory), and a return that
//! finds every shard at capacity silently sheds the item.

pub mod laws;
pub mod pool;
pub mod probing;

pub use pool::InnerPool;
pub use pool::MemPool;
pub use pool::MutMemShare;
pub use pool::PooledMem;
pub use pool::ShareableMem;
