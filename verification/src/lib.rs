//! Batched, concurrency-bounded DNS resolution: the decisions of the engine,
//! stated over plain values and proved.

pub mod address;
pub mod admin;
pub mod admission;
pub mod batch;
pub mod error;
pub mod layout;
pub mod outcome;
pub mod protocol;
pub mod record_kind;
pub mod state;
pub mod text;
