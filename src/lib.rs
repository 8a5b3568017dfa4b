//! Pooled-value escrow engine.
//!
//! A group of participants each pay a fixed share toward a target amount. Once
//! every share is in, the pooled principal earns yield; each participant later
//! withdraws their principal plus a proportional part of the yield, exactly once.
//! A creator may cancel an escrow that is still open, refunding everyone who joined.
//!
//! The engine is a verified state machine over an explicit [`engine::Registry`].
//! Value transfers and the yield-bearing conversion are performed by the caller
//! around the engine's steps: the engine validates, decides what to move, and
//! records the outcome.
//!
//! - [`types`]: identities, escrow and contribution records, codes, errors, events.
//! - [`engine`]: the registry, its model, and the operations as state transitions.
//! - [`lifecycle`]: properties relating the operations, proved over that model.
//! - [`yield_split`]: the proportional, round-down split of accrued yield.
//! - [`codec`]: the fixed-layout binary records kept in the store.
//! - [`code_text`]: the text form of escrow codes.

pub mod types;
pub mod yield_split;
pub mod engine;
pub mod lifecycle;
pub mod codec;
pub mod code_text;


