//! A mock HTTP server library: mock rules read from YAML files are indexed by
//! the first segment of their request path, and each request is answered by
//! the first rule that matches it.

pub mod text;
pub mod json;
pub mod config;
pub mod index;
pub mod router;
pub mod laws;
pub mod loader;
pub mod handler;
