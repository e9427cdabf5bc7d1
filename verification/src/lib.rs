//! Verified engine for snapshotting and restoring the timestamps of the files
//! in a directory.
pub mod action;
pub mod capture;
pub mod clock;
pub mod error;
pub mod laws;
pub mod records;
pub mod resolver;
pub mod restore;
pub mod snapshot;
pub mod state;
pub mod store;
pub mod timestamp;
pub mod traversal;
pub mod walk;
