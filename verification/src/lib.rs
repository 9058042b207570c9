//! An optimistic bisection dispute game for relaying the state of an external chain.
//!
//! Participants claim what the external chain holds at a height. A claim that
//! nobody disputes within the challenge window is accepted. Where claims
//! disagree, the game asks for more checkpoints, halving the disputed range
//! round by round, until a single claim stands; then the dishonest claimants
//! are slashed, the honest lineage is rewarded and its checkpoints are
//! confirmed.
//!
//! - [`relay`] is the game engine; [`state`] and [`settlement`] say in
//!   mathematics what its operations do, [`round`] and [`bisection`] hold the
//!   arithmetic of rounds and of bisection, and [`claims`] the handling of
//!   the claims filed under one height.
//! - [`sample`] selects probes between two heights and steers them around
//!   confirmed heights; [`entropy`] is its source of pseudo-random draws.
//! - [`name_registry`] and [`kitty`] are two small registries, both built on
//!   [`byte_table`].

pub mod bisection;
pub mod byte_table;
pub mod claims;
pub mod entropy;
pub mod kitty;
pub mod name_registry;
pub mod relay;
pub mod round;
pub mod sample;
pub mod settlement;
pub mod state;
pub mod types;
