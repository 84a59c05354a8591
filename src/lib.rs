//! Durable persistence for automerge documents.
//!
//! A [`PersistentBackend`] wraps an [`automerge::Automerge`] document and a [`Persister`]. Every
//! change received from a peer is written to storage before it is applied to the document, and
//! `compact` replaces the stored changes by a snapshot of the whole document, writing the snapshot
//! before any change is removed.
pub mod backend;
pub mod engine;
pub mod keys;
pub mod memory;
pub mod persister;

pub use backend::{
    compaction_ids, decode_all, record_of, records_of, select_actor, PersistentBackend,
    PersistentBackendError,
};
pub use keys::{be_bytes, make_change_key, make_document_key};
pub use memory::{MemoryPersister, MemoryPersisterError};
pub use persister::{ChangeRecord, Persister};
