//! Binary field arithmetic used by the circuits.

pub mod aes;
pub mod byte_sliced;
pub mod tower;
