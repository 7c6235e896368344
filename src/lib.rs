//! A content-addressed, append-only store of UTF-8 text blobs.
//!
//! The library holds the verified core: the binary layout of the store file,
//! the identifier index, the bounded cache and the resolver that ties them
//! together. Reading and writing the file itself is left to the caller, who
//! appends the bytes the resolver hands out and maps the file for reads.
pub mod cache;
pub mod format;
pub mod index;
pub mod resolver;
pub mod store;

pub use cache::Cache;
pub use format::{PufEntry, PufHeader};
pub use index::{EntryLocation, Index, UtfId};
pub use resolver::{ParallelStats, PendingWrite, Registration, Resolved, Resolver};
