//! Least-significant-bit steganography: a payload is spread over the colour
//! channels of an RGBA image along a seeded, reproducible plan, and read back
//! along the same plan.
pub mod bits;
pub mod capacity;
pub mod carrier;
pub mod plan;
pub mod error;
pub mod steg;
pub mod password;
pub mod crypto;
