//! Bootstrap logic for a small single-endpoint connectivity-check service.
//!
//! The service resolves its configuration from the process environment once
//! at startup (cloud vs. local mode, secret source, listening port), checks a
//! remote JSON document as a diagnostic, and serves one static JSON response.
//! This crate holds the decision logic of that bootstrap sequence; the
//! surrounding I/O (environment, vault, storage, HTTP) lives outside it and
//! hands plain values in and out.

pub mod config;
pub mod document;
pub mod response;
