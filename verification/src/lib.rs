//! A habit tracker's record store: habit records with per-day completion
//! history, a store that resolves user identifiers to records, and a
//! text codec for the backing file, with the store's invariants and the
//! codec's round trip proved.

pub mod cmd;
pub mod codec;
pub mod error;
pub mod habit;
pub mod num;
pub mod store;
pub mod ts;
