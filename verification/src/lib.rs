//! Plugin-side substrate for an active-data-object worker: buffer handles
//! into host-owned memory, a pool-allocator client with strict allocate/free
//! pairing, a bounds-checked copy protocol, and the per-call work dispatcher.

pub mod buffer;
pub mod dispatch;
pub mod pool;

pub use buffer::AdoError;
pub use buffer::Request;
pub use buffer::Response;
pub use buffer::Value;
pub use dispatch::STATUS_BUFFER_TOO_SMALL;
pub use dispatch::STATUS_INTERNAL;
pub use dispatch::STATUS_INVALID_HANDLE;
pub use dispatch::STATUS_OK;
pub use dispatch::STATUS_POOL_EXHAUSTED;
pub use dispatch::SCRATCH_BYTES;
pub use dispatch::Status;
pub use dispatch::do_work;
pub use dispatch::register_mapped_memory;
pub use pool::BufferHandle;
pub use pool::Pool;
