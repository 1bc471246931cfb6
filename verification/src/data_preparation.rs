//! The listwise-delete pre-processor.
//!
//! A case with any missing value is neutralised, never dropped: its data row
//! is zeroed, its weight is set to zero, and its replicate-weight row is
//! zeroed.  Row alignment between data, weights and replicate weights is
//! therefore preserved.

use vstd::prelude::*;
use crate::bits::ZERO_BITS;
use crate::matrix::{Matrix, spec_row_has_nan, spec_zero_row};

verus! {

/// Zero-weight every row of `x` that holds a NaN: the row itself, its entry
/// of `weight`, and — when replicate weights are present, that is when
/// `repweights` has rows — its row of `repweights`.  Rows without NaN stay
/// untouched, and no row is removed.
pub fn listwise_delete(x: &mut Matrix, weight: &mut Vec<u64>, repweights: &mut Matrix)
    requires
        old(x)@.len() == old(weight)@.len(),
        old(repweights)@.len() > 0 ==> old(repweights)@.len() == old(x)@.len(),
    ensures
        final(x)@.len() == old(x)@.len(),
        final(x).spec_ncols() == old(x).spec_ncols(),
        final(weight)@.len() == old(weight)@.len(),
        final(repweights)@.len() == old(repweights)@.len(),
        final(repweights).spec_ncols() == old(repweights).spec_ncols(),
        forall|r: int|
            0 <= r < old(x)@.len() && spec_row_has_nan(#[trigger] old(x)@[r]) ==> {
                &&& final(x)@[r] == spec_zero_row(old(x)@[r].len())
                &&& final(weight)@[r] == ZERO_BITS
                &&& (old(repweights)@.len() > 0 ==> final(repweights)@[r] == spec_zero_row(
                    old(repweights)@[r].len(),
                ))
            },
        forall|r: int|
            0 <= r < old(x)@.len() && !spec_row_has_nan(#[trigger] old(x)@[r]) ==> {
                &&& final(x)@[r] == old(x)@[r]
                &&& final(weight)@[r] == old(weight)@[r]
                &&& (old(repweights)@.len() > 0 ==> final(repweights)@[r] == old(repweights)@[r])
            },
{
    let n = x.nrows();
    let has_replicate_weights = repweights.nrows() > 0;
    for rr in 0..n
        invariant
            n == old(x)@.len() == old(weight)@.len(),
            has_replicate_weights == (old(repweights)@.len() > 0),
            has_replicate_weights ==> old(repweights)@.len() == n,
            x@.len() == n,
            x.spec_ncols() == old(x).spec_ncols(),
            weight@.len() == n,
            repweights@.len() == old(repweights)@.len(),
            repweights.spec_ncols() == old(repweights).spec_ncols(),
            forall|r: int| rr <= r < n ==> #[trigger] x@[r] == old(x)@[r],
            forall|r: int| rr <= r < n ==> #[trigger] weight@[r] == old(weight)@[r],
            forall|r: int|
                rr <= r < repweights@.len() ==> #[trigger] repweights@[r] == old(repweights)@[r],
            forall|r: int|
                0 <= r < rr && spec_row_has_nan(#[trigger] old(x)@[r]) ==> {
                    &&& x@[r] == spec_zero_row(old(x)@[r].len())
                    &&& weight@[r] == ZERO_BITS
                    &&& (has_replicate_weights ==> repweights@[r] == spec_zero_row(
                        old(repweights)@[r].len(),
                    ))
                },
            forall|r: int|
                0 <= r < rr && !spec_row_has_nan(#[trigger] old(x)@[r]) ==> {
                    &&& x@[r] == old(x)@[r]
                    &&& weight@[r] == old(weight)@[r]
                    &&& (has_replicate_weights ==> repweights@[r] == old(repweights)@[r])
                },
    {
        if x.row_has_nan(rr) {
            x.zero_row(rr);
            weight[rr] = ZERO_BITS;
            if has_replicate_weights {
                repweights.zero_row(rr);
            }
        }
    }
}

} // verus!
