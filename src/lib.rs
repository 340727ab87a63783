//! Pseudorandom bit generators (MT19937 and CMWC4096) and a bit-exact
//! sampler of uniform floating-point values in [0, 1).

pub mod algorithm;
pub mod mersenne;
pub mod cmwc;
pub mod sampler;

pub use algorithm::Algorithm;
pub use mersenne::MersenneTwister;
pub use cmwc::ComplementaryMultiplyWithCarry;
pub use sampler::{get_double_bits, get_float_bits, Bits};
