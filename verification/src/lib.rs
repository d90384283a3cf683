//! Verified core of a chat translation pipeline.
//!
//! A message is split into sentence-sized units, each unit is sent to a
//! remote translation endpoint, and the per-unit outcomes are folded back
//! into one aggregate: the translated text in original order, a sorted set
//! of distinct error descriptions, and a rate-limit flag. A registry maps
//! each conversation context to its active language pair, and small
//! planning functions decide what the host's event handlers do, including
//! the guard that keeps re-injected text from being processed twice.
//!
//! Everything here is ordinary computation on plain values; the network
//! call itself and the host-client glue live outside this crate and hand
//! results in as data.

pub mod events;
pub mod outcome;
pub mod pipeline;
pub mod registry;
pub mod segment;
pub mod text;
pub mod translate;
