//! Core engine of an ephemeral, content-addressed file-hosting service.
//!
//! A client uploads a file with a chosen expiration and receives a short
//! opaque handle (an MMID); until the entry expires the file can be fetched
//! by that handle.  Storage is content-addressed: blobs are keyed by their
//! hash and shared between entries, with the metadata index acting as the
//! reference counter that decides when a blob may be deleted.

pub mod blobstore;
pub mod bytes;
pub mod chunkbase;
pub mod database;
pub mod entry;
pub mod lookup;
pub mod mhash;
pub mod mmid;
pub mod reaper;
pub mod settings;
pub mod snapshot;
pub mod strings;
pub mod upload;
pub mod websocket;
