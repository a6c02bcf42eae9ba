//! The feed-forward evaluation engine and the evolution that trains it.

pub mod artifact;
pub mod layers;
pub mod neural_network_f;
pub mod neuron;
pub mod train;
