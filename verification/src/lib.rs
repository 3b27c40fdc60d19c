//! The round allocation and attempt-lifecycle engine of a multi-round,
//! branching collaborative drawing game.
//!
//! Players are allocated to round slots, submit work through a
//! moderation state machine, and approved work is chained forward into
//! new rounds, forming a branching lineage tree.  The engine enforces
//! per-round capacity, lets no user hold two live attempts on one round,
//! keeps attempt states monotonic, and carries every ancestor chain
//! forward unchanged.
//!
//! - [`engine`] holds the state, the allocator, the forwarder and the
//!   sweeper;
//! - [`state`] the attempt state machine;
//! - [`game`] the per-mode policy functions;
//! - [`stats`] the read-only query surface;
//! - [`assets`] the image registry;
//! - [`args`] the command vocabulary and the decisions drawn from it.

pub mod args;
pub mod assets;
pub mod clock;
pub mod engine;
pub mod game;
pub mod state;
pub mod stats;
