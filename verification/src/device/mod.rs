//! Device operations and the futures that drive them.
pub mod clones;
pub mod context;
pub mod error;
pub mod future;
pub mod lock;
pub mod once;
pub mod operation;
pub mod operation_laws;
pub mod state_laws;
pub mod submission;
pub mod unzip;
pub mod zip;
