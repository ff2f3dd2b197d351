//! A 256-bit demonstration digest built from a four-word mixing state.
//!
//! The digest of an input is obtained by pairing every round with every byte
//! of pepper, input and salt, mixing each pair into a private copy of the
//! initial state, and XOR-merging all the resulting states into the initial
//! state, which is then truncated to 32 bytes. Every step is specified over
//! sequences of words and bytes and proved against that specification.
//!
//! The units of work are independent of one another. [`advanced_hash`] runs
//! them one after the other; a caller that runs them concurrently takes the
//! plan from [`accumulator::schedule_units`], runs each unit with
//! [`accumulator::unit_computation`] and hands the outcomes, in whatever
//! order they arrive, to [`digest::digest_from_outcomes`].

pub mod accumulator;
pub mod contribution;
pub mod digest;
pub mod encoding;
pub mod keying;
pub mod merge;
pub mod mixer;
pub mod sensitivity;
pub mod session;
pub mod text;

pub use crate::digest::advanced_hash;
pub use crate::encoding::hash_to_binary_string;
pub use crate::keying::{generate_dynamic_pepper, generate_salt};
pub use crate::mixer::{hash_round, modular_non_linear_transform};
