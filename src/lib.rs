//! Record identity and relationship indexing over a content-addressed store.
//!
//! - `store`: entries keyed by the BLAKE2b hash of their bytes, mutable
//!   identity pointers, tagged edges and time-ordered index entries.
//! - `records`: create, read, update and delete of logical records, each a
//!   stable identity pointing at its current entry.
//! - `identity`, `indexes`: identity addresses shared across partitions, and
//!   bidirectional edges between them. An edge is keyed by its endpoints and
//!   tag, so making it twice makes it once.
//! - `time_index`: newest-first windows over addresses recorded in time order.
//! - `sync`: applying another partition's added and removed addresses.
//! - `record_laws`, `edge_laws`, `index_laws`: properties across operations.
pub mod agent;
pub mod bytes;
pub mod bytemap;
pub mod codec;
pub mod edge_laws;
pub mod error;
pub mod identity;
pub mod index_laws;
pub mod indexes;
pub mod recipe_flow;
pub mod record_laws;
pub mod records;
pub mod store;
pub mod sync;
pub mod time_index;
