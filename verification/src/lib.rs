//! Text classification by normalized compression distance (NCD) with
//! k-nearest-neighbor voting.
//!
//! A query string is compared against every sample of a labeled reference
//! corpus by compressing the query, the sample, and their concatenation,
//! and combining the three compressed lengths into a distance. The `k`
//! samples nearest to the query vote on the predicted label.
//!
//! Distances are kept as exact integer fractions, so comparison, sorting
//! and voting are verified end to end; only the compressor itself (gzip,
//! through `flate2`) is trusted.

use vstd::prelude::*;

pub mod args;
pub mod batch;
pub mod classify;
pub mod compress;
pub mod corpus;
pub mod distance;
pub mod predict;

verus! {

/// Why a prediction could not be made.
#[derive(Clone, Copy, Debug, PartialEq, Eq, Structural)]
pub enum Error {
    /// `k` is zero or exceeds the corpus size (an empty corpus admits no `k`).
    InvalidK,
    /// The batch size is zero, so the corpus cannot be partitioned.
    InvalidBatchSize,
    /// Some pair of texts has compressed lengths on which the distance is
    /// undefined (both lengths zero) or too large to compare exactly.
    DegenerateDistance,
}

} // verus!
