//! Collatz trajectories over arbitrary-precision integers: an input parser
//! that accepts plain decimal or `base^exponent[-subtrahend]` text, a
//! trajectory generator, and statistics over a generated trajectory.

pub mod bignum;
pub mod digits;
pub mod parser;
pub mod stats;
pub mod trajectory;
