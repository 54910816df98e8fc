//! Perceptual near-duplicate image detection.
//!
//! The library computes a 64-bit perceptual fingerprint from a 32x32
//! grayscale pixel grid, compares fingerprints by Hamming distance,
//! partitions fingerprinted items into duplicate groups, and derives
//! deterministic output names for the members of each group.

pub mod cluster;
pub mod naming;
pub mod phash;
