//! Pairwise Kimura two-parameter (K2P) genetic distances between aligned
//! DNA sequences grouped by species: an ambiguity-aware frequency model,
//! the distance computation in a plain and an ambiguity-weighted variant,
//! sequence deduplication, and the assembly of the grouped min/max and the
//! full sequence-by-sequence distance matrices.
//!
//! A distance is kept in exact integer form: the transition and
//! transversion proportions as rationals, with the domain checks of the
//! closed-form distance made exactly, so every comparison the matrix
//! assembly makes is exact. The one step left to a caller is the final
//! real-valued map through the logarithm, which is strictly decreasing
//! and so never changes a comparison.

pub mod base;
pub mod dedup;
pub mod dist;
pub mod freq;
pub mod laws;
pub mod matrix;
pub mod seqs;
pub mod text;
pub mod weighted;

pub use base::Base;
