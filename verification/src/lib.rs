//! A small message broker core: named FIFO topics and a flat key-value
//! store, both held in memory and written through to an embedded durable
//! store so state survives restarts.
//!
//! [`PigeonState`] owns both mappings and the durable-store handle;
//! `persistence` translates entities to and from the store's flat
//! namespace and rebuilds memory at startup; `codec` fixes the record
//! format for message sequences; `laws` states the cross-operation
//! guarantees. The service edge (routing, locking, the flush timer) lives
//! outside this crate and drives these operations one at a time.

pub mod codec;
pub mod errors;
pub mod laws;
pub mod persistence;
pub mod state;
pub mod strmap;
pub mod strutil;

pub use errors::StoreError;
pub use state::PigeonState;
