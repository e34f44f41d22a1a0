//! In-memory tile IR.
pub mod attr;
pub mod builder;
pub mod builder_laws;
pub mod content_laws;
pub mod fmt;
pub mod location;
pub mod module;
pub mod types;
