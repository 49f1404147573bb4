//! Classifies the monotonic trend of a one-dimensional sequence: rising,
//! falling or neither, and whether the trend is strict.

mod classify;
mod laws;
mod shape;

pub use classify::{monotonic_of, monotonic_of_reversed, VectorExtensions};
pub use laws::{
    lemma_decreasing_with_plateau, lemma_flat_not_monotonic, lemma_increasing_with_plateau,
    lemma_reversal_symmetry, lemma_short_not_monotonic, lemma_strictly_decreasing,
    lemma_strictly_increasing, lemma_turning_not_monotonic,
};
pub use shape::{flip, mirror, pair_orders, shape_of, shape_of_orders, traversed, Monotonic};
