//! A cache that holds a value only once its key has been requested twice within a bounded
//! window of recent requests, and forgets a key once its latest request leaves that window.
//!
//! Most values are fetched once and never again, and caching them costs memory for
//! nothing. This cache remembers that a key was requested, and stores a value only when the
//! key comes back while it is still remembered. The memory is a window of the most recent
//! requests; its length is the one thing to configure.
//!
//! [`DynamicCacheLocal`] is the cache. [`model`] holds its mathematical model, the
//! [`CacheState`](model::CacheState), by which every operation is specified; [`wellformed`]
//! proves that the operations keep a state well-formed, and [`laws`] proves what follows
//! for every cache.

pub mod laws;
pub mod local;
pub mod model;
pub mod wellformed;

pub use local::DynamicCacheLocal;
