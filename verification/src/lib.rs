//! Client-side core of a temporary file-sharing application.
//!
//! The library keeps the client state (the list of uploaded files, the
//! loading and validating flags, the error slot and the set of in-flight
//! downloads), applies reducer actions to it, encodes and decodes the
//! persisted file list, and makes the decisions of the upload, download and
//! validation workflows.  All I/O — the HTTP calls, the browser storage, the
//! DOM — stays outside, in the application shell, which hands this library
//! plain values and applies its answers.

pub mod codec;
pub mod digits;
pub mod formatters;
pub mod models;
pub mod storage;
pub mod store;
pub mod workflow;
