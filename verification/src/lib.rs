//! Verified core of a neuro-evolution trainer for a single-paddle Pong.
//!
//! The crate holds the rules: the shape of a feed-forward network and the
//! flow of values through it, the byte layout of the champion artifact,
//! collision resolution and scoring of one match, and the generational
//! selection and reproduction of a population.
//!
//! Real numbers are carried as IEEE 754 bit patterns ([`scalar::Single`],
//! [`scalar::Double`]). The crate performs on them exactly the operations
//! whose result the encoding determines (sign flip, absolute value,
//! ordering). Rounding arithmetic is handed in by the caller as a closure,
//! and every contract that depends on it is stated relative to what that
//! closure returns.

pub mod scalar;
pub mod neural_network;
pub mod game;
