//! Slot-processing core of an indexer for blob-carrying transactions.
//!
//! For each slot of a range the indexer fetches the beacon block, the
//! execution block that the beacon block names, and the blob sidecar. It ties
//! each KZG commitment of the sidecar to the transaction that declares its
//! versioned hash, and submits the block, its blob-carrying transactions and
//! their blobs to a downstream indexer, all at once.
//!
//! The core decides and performs no outside call. A processor says with a
//! [`protocol::Step`] what is to be done next, and is told with a
//! [`protocol::Response`] what came of it:
//!
//! - [`correlator`] computes versioned hashes, collects what the
//!   transactions of a block declare, and files the items of a sidecar;
//!   [`assembly`] builds from them what is submitted for a slot.
//! - [`slots_processor`] takes one slot through the pipeline, watches for
//!   reorganisations of the chain, and drives a range of slots in order.
//! - [`slot_processor`] puts a retry policy with exponential backoff around
//!   it.
//! - [`runs`], [`attempts`] and [`ranges`] state what holds of every run of
//!   a processor, and prove it.

pub mod assembly;
pub mod attempts;
pub mod beacon;
pub mod correlator;
pub mod decimal;
pub mod entities;
pub mod error;
pub mod execution;
pub mod hashing;
pub mod primitives;
pub mod protocol;
pub mod ranges;
pub mod retry;
pub mod runs;
pub mod slot_processor;
pub mod slots_processor;
