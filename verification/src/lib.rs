//! Verified core of a noisy stochastic parallel Zhang sandpile simulation on a
//! small-world lattice: the pseudo-random number generator, the lattice and
//! its Newman-Watts shortcuts, and the integer bookkeeping around them.

pub mod rng;
pub mod network;
pub mod stats;
pub mod params;
pub mod codec;
pub mod shape;
