//! Near-duplicate pull-request detection: the changed files of one pull
//! request are assembled into one deterministic content blob, chunked to
//! fit the embedding model's input budget, embedded into one
//! fixed-width vector, and matched against a remote vector store keyed
//! by repository and pull-request number.
//!
//! - [`identity`]: the codec between (repository, PR number) and the one
//!   opaque id the store is keyed by.
//! - [`content`]: rendering and ordering of the per-file change records
//!   into the content blob.
//! - [`chunker`]: splitting the blob into token-bounded chunks.
//! - [`embedding`]: batch tokenization, parallel per-chunk inference
//!   with order-preserving gathering, and mean pooling.
//! - [`gather`]: the indexed scatter/gather that makes every
//!   concurrently produced result land at its own slot.
//! - [`store`]: identity and threshold filtering of query responses and
//!   the report renderings.
//! - [`pipeline`]: the per-event state machine that sequences all of the
//!   above and fails fast on the first error.

pub mod chunker;
pub mod content;
pub mod embedding;
pub mod gather;
pub mod identity;
pub mod pipeline;
pub mod scan;
pub mod store;
