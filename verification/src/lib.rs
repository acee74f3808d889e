//! Bookkeeping of a pool of KV-cache blocks.
//!
//! A block is *inactive* (held by the [`inactive::InactiveBlockPool`], either empty or cached
//! under its sequence hash), *active* (shared by sequences, and found through the
//! [`active::ActiveBlockPool`]) or on its way back from the one to the other.
//! [`state::State`] moves blocks between the two pools. Requests that depend on answers from
//! elsewhere (the block registry, blocks that come back, offloading) are jobs, which say what
//! they need next and go on once they are told: see [`matching`], [`touching`] and
//! [`registration`].

pub mod active;
pub mod block;
pub mod dispatch;
pub mod errors;
pub mod exclusion;
pub mod inactive;
pub mod kv;
pub mod laws;
pub mod matching;
pub mod metadata;
pub mod outcomes;
pub mod priority;
pub mod registration;
pub mod requests;
pub mod runs;
pub mod state;
pub mod steps;
pub mod text;
pub mod tokens;
pub mod touching;
pub mod weak;
