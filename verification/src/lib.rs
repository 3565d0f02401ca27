//! Backend core of a desktop API-testing client.
//!
//! The heart of the library is the single-flight cancellable request
//! executor: an execution slot that holds at most one cancellation handle,
//! an executor that validates and classifies outbound requests, and a
//! cancellation controller.  Around it stand the persisted document of
//! saved collections and requests, its JSON codec, and the update
//! operations on it.  All I/O (file system, HTTP transport, timers) lives
//! in the surrounding application; this crate holds the verified logic.

pub mod codec;
pub mod document;
pub mod executor;
pub mod paths;
pub mod slot;
