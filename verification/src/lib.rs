//! A fixed-width finite-field permutation and the sponge hash built on it,
//! together with the tree-value marshalling that carries calls across the
//! boundary between a tree-structured interchange format and native arrays.

pub mod error;
pub mod field;
pub mod jets;
pub mod permutation;
pub mod sponge;
pub mod tree;
