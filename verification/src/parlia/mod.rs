//! Snapshots of the Parlia consensus state: where they are kept, and how a missing one is rebuilt.

pub mod laws;
pub mod provider;
pub mod query;
pub mod types;
