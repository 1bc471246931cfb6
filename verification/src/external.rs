//! The outward-facing estimator choice.
//!
//! Callers outside the crate — the server's command channel among them —
//! pick an estimator by this tag; options travel separately and are bound
//! when the analysis selects its kernel.

use vstd::prelude::*;

verus! {

/// The estimator selected through the outward-facing surfaces.
#[derive(Clone, Copy, PartialEq, Eq, Structural, Debug)]
pub enum Estimate {
    /// Weighted frequency counts of the distinct values per column.
    Frequencies,
    /// Weighted quantiles per column.
    Quantiles,
    /// The weighted column means.
    Mean,
    /// Weighted covariances and correlations over all column pairs.
    Correlation,
    /// Weighted linear regression of column 1 on the remaining columns.
    LinearRegression,
}

} // verus!
