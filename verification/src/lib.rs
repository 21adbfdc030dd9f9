//! Tracking of prescription refill cycles.
//!
//! A prescription (`RxId`) moves through *fill-request cycles*: a cycle is
//! opened by a refill request, may record a fill and a pick-up, and is closed
//! either by a pick-up or by a newer request superseding it.  The crate keeps
//! that lifecycle in two interchangeable backings:
//!
//! * [`fill_request::FillRequestStore`] — one mutable row per cycle, closed
//!   rows never touched again;
//! * [`events::EventLog`] — an append-only log of dated events from which the
//!   current cycle is reconstructed by replay.
//!
//! Both enforce the central invariant: at most one open cycle per
//! prescription.  [`rx::RxRegistry`] holds the prescriptions themselves.

use vstd::prelude::*;

pub mod dates;
pub mod engine;
pub mod events;
pub mod fill_request;
mod ids;
pub mod rx;
mod seqs;

pub use ids::FillRequestId;
pub use ids::RxId;

verus! {

/// Errors surfaced by the registry and by storage-backed callers.
#[derive(Debug, PartialEq, Eq)]
pub enum Error {
    /// A prescription name was blank after trimming.
    EmptyRxName,
    /// A failure of an underlying store, carrying its message.
    DbError(String),
}

} // verus!
