//! Per-evaluation estimates and the estimator kernels' fixed surface.
//!
//! A kernel evaluates one data matrix under one weight vector and reports an
//! ordered list of parameter names with one value per name.  The names are a
//! function of the estimator's configuration and the column count alone —
//! the replication engine stacks values by position across replicates and
//! imputations, so this stability is a hard invariant.  This module pins the
//! name lists down exactly, together with the ordered value counter a
//! column-wise kernel walks and the weight validation every kernel demands.

use vstd::prelude::*;
use crate::bits::spec_is_nan;
use crate::bits::is_nan_bits;
use crate::helper::{OrderedF64Counts, spec_counter_push, spec_counter_wf};
use crate::matrix::Matrix;
use crate::text::{spec_dec_digits, spec_name_views, usize_to_string};

verus! {

/// One evaluation's result: parameter names and one value per name.
pub struct Estimates {
    parameter_names: Vec<String>,
    estimates: Vec<u64>,
}

impl Estimates {
    /// The parameter names, as sequences of characters.
    pub closed spec fn spec_parameter_names(&self) -> Seq<Seq<char>> {
        spec_name_views(self.parameter_names@)
    }

    /// The values, one per parameter name.
    pub closed spec fn spec_estimates(&self) -> Seq<u64> {
        self.estimates@
    }

    /// As many values as names.
    pub open spec fn wf(&self) -> bool {
        self.spec_parameter_names().len() == self.spec_estimates().len()
    }

    /// An evaluation result from its name list and value vector.
    pub fn new(parameter_names: Vec<String>, estimates: Vec<u64>) -> (e: Estimates)
        requires
            parameter_names@.len() == estimates@.len(),
        ensures
            e.spec_parameter_names() == spec_name_views(parameter_names@),
            e.spec_estimates() == estimates@,
            e.wf(),
    {
        Estimates { parameter_names, estimates }
    }

    /// The parameter names.
    pub fn parameter_names(&self) -> (names: &Vec<String>)
        ensures
            spec_name_views(names@) == self.spec_parameter_names(),
    {
        &self.parameter_names
    }

    /// The values, one per parameter name.
    pub fn estimates(&self) -> (values: &Vec<u64>)
        ensures
            values@ == self.spec_estimates(),
    {
        &self.estimates
    }
}

/// How a quantile between two distinct observed values is reported.
#[derive(Clone, Copy, PartialEq, Eq, Structural, Debug)]
pub enum QuantileType {
    /// The previous distinct value.
    Lower,
    /// Linear interpolation within the reached value's weight block.
    Interpolation,
    /// The reached value itself.
    Upper,
}

impl QuantileType {
    /// The lowercase name used on the wire and in the options map.
    pub fn as_str(&self) -> (s: &'static str)
        ensures
            self is Lower ==> s@ == "lower"@,
            self is Interpolation ==> s@ == "interpolation"@,
            self is Upper ==> s@ == "upper"@,
    {
        match self {
            QuantileType::Lower => "lower",
            QuantileType::Interpolation => "interpolation",
            QuantileType::Upper => "upper",
        }
    }
}

/// Whether a weight vector is free of NaN.  Every kernel rejects a weight
/// vector holding NaN as a fatal error.
pub fn weights_all_numeric(wgt: &Vec<u64>) -> (ok: bool)
    ensures
        ok == (forall|i: int| 0 <= i < wgt@.len() ==> !spec_is_nan(#[trigger] wgt@[i])),
{
    let n = wgt.len();
    for i in 0..n
        invariant
            n == wgt@.len(),
            forall|j: int| 0 <= j < i ==> !spec_is_nan(#[trigger] wgt@[j]),
    {
        if is_nan_bits(wgt[i]) {
            return false;
        }
    }
    true
}

// ---------------------------------------------------------------------------
// Parameter names
// ---------------------------------------------------------------------------

/// The names the mean kernel reports for `p` columns:
/// `mean_x1 .. mean_xp`.
pub open spec fn spec_mean_names(p: nat) -> Seq<Seq<char>> {
    Seq::new(p, |j: int| "mean_x"@ + spec_dec_digits((j + 1) as nat))
}

/// The names `prefix{i}_x{j}` for all column pairs `1 <= i <= j <= p`,
/// ordered by `i` first.
pub open spec fn spec_pair_names_from(prefix: Seq<char>, p: nat, i: nat, j: nat) -> Seq<Seq<char>>
    recommends
        1 <= i,
        i <= j,
    decreases p + 1 - i, p + 1 - j,
{
    if i > p {
        Seq::empty()
    } else if j > p {
        spec_pair_names_from(prefix, p, i + 1, i + 1)
    } else {
        seq![prefix + spec_dec_digits(i) + "_x"@ + spec_dec_digits(j)] + spec_pair_names_from(
            prefix,
            p,
            i,
            j + 1,
        )
    }
}

/// The names `prefix1 .. prefix{count}`.
pub open spec fn spec_indexed_names(prefix: Seq<char>, count: nat) -> Seq<Seq<char>> {
    Seq::new(count, |k: int| prefix + spec_dec_digits((k + 1) as nat))
}

/// The names the covariance/correlation kernel reports for `p` columns: the
/// covariance block over all pairs `i <= j`, then the correlation block over
/// the same pairs.
pub open spec fn spec_correlation_names(p: nat) -> Seq<Seq<char>> {
    spec_pair_names_from("covariance_x"@, p, 1, 1) + spec_pair_names_from(
        "correlation_x"@,
        p,
        1,
        1,
    )
}

/// The names the linear-regression kernel reports for `p` columns (column 1
/// the dependent variable, so `p - 1` predictors): the coefficients — the
/// intercept first if one is fitted — then sigma and R2, then the
/// standardized coefficients.
pub open spec fn spec_linreg_names(p: nat, intercept: bool) -> Seq<Seq<char>>
    recommends
        p >= 1,
{
    (if intercept {
        seq!["linreg_b_intercept"@]
    } else {
        Seq::<Seq<char>>::empty()
    }) + spec_indexed_names("linreg_b_X"@, (p - 1) as nat) + seq!["linreg_sigma"@, "linreg_R2"@]
        + spec_indexed_names("linreg_beta_X"@, (p - 1) as nat)
}

/// The names the quantile kernel reports for `p` columns and the given
/// quantile labels (one label per requested quantile, in ascending quantile
/// order): per column, one name per label.
pub open spec fn spec_quantile_names_from(
    labels: Seq<Seq<char>>,
    p: nat,
    j: nat,
    k: nat,
) -> Seq<Seq<char>>
    recommends
        1 <= j,
    decreases p + 1 - j, labels.len() - k,
{
    if j > p {
        Seq::empty()
    } else if k >= labels.len() {
        spec_quantile_names_from(labels, p, j + 1, 0)
    } else {
        seq!["quantile_x"@ + spec_dec_digits(j) + "_"@ + labels[k as int]]
            + spec_quantile_names_from(labels, p, j, k + 1)
    }
}

/// The mean kernel's names for `ncols` columns.
pub fn mean_parameter_names(ncols: usize) -> (names: Vec<String>)
    requires
        ncols < usize::MAX,
    ensures
        spec_name_views(names@) == spec_mean_names(ncols as nat),
{
    let mut names: Vec<String> = Vec::new();
    for j in 0..ncols
        invariant
            ncols < usize::MAX,
            names@.len() == j,
            forall|k: int|
                0 <= k < j ==> (#[trigger] names@[k])@ == "mean_x"@ + spec_dec_digits(
                    (k + 1) as nat,
                ),
    {
        let mut name = "mean_x".to_owned();
        let digits = usize_to_string(j + 1);
        name.append(digits.as_str());
        names.push(name);
    }
    assert(spec_name_views(names@) =~= spec_mean_names(ncols as nat));
    names
}

/// The names `prefix{i}_x{j}` for all column pairs `1 <= i <= j <= ncols`.
fn pair_parameter_names(prefix: &str, ncols: usize) -> (names: Vec<String>)
    requires
        ncols < usize::MAX,
    ensures
        spec_name_views(names@) == spec_pair_names_from(prefix@, ncols as nat, 1, 1),
{
    let ghost p = ncols as nat;
    let mut names: Vec<String> = Vec::new();
    let mut i: usize = 1;
    while i <= ncols
        invariant
            ncols < usize::MAX,
            p == ncols as nat,
            1 <= i <= ncols + 1,
            spec_pair_names_from(prefix@, p, 1, 1) =~= spec_name_views(names@)
                + spec_pair_names_from(prefix@, p, i as nat, i as nat),
        decreases ncols + 1 - i,
    {
        let mut j: usize = i;
        while j <= ncols
            invariant
                ncols < usize::MAX,
                p == ncols as nat,
                1 <= i <= ncols,
                i <= j <= ncols + 1,
                spec_pair_names_from(prefix@, p, 1, 1) =~= spec_name_views(names@)
                    + spec_pair_names_from(prefix@, p, i as nat, j as nat),
            decreases ncols + 1 - j,
        {
            let mut name = prefix.to_owned();
            let digits_i = usize_to_string(i);
            name.append(digits_i.as_str());
            name.append("_x");
            let digits_j = usize_to_string(j);
            name.append(digits_j.as_str());
            let ghost before = names@;
            names.push(name);
            proof {
                assert(spec_name_views(names@) =~= spec_name_views(before).push(
                    prefix@ + spec_dec_digits(i as nat) + "_x"@ + spec_dec_digits(j as nat),
                ));
                assert(spec_pair_names_from(prefix@, p, i as nat, j as nat) == seq![
                    prefix@ + spec_dec_digits(i as nat) + "_x"@ + spec_dec_digits(j as nat),
                ] + spec_pair_names_from(prefix@, p, i as nat, (j + 1) as nat));
                assert(spec_name_views(before) + spec_pair_names_from(
                    prefix@,
                    p,
                    i as nat,
                    j as nat,
                ) =~= spec_name_views(names@) + spec_pair_names_from(
                    prefix@,
                    p,
                    i as nat,
                    (j + 1) as nat,
                ));
            }
            j = j + 1;
        }
        assert(spec_pair_names_from(prefix@, p, i as nat, j as nat) == spec_pair_names_from(
            prefix@,
            p,
            (i + 1) as nat,
            (i + 1) as nat,
        ));
        i = i + 1;
    }
    assert(spec_pair_names_from(prefix@, p, i as nat, i as nat) =~= Seq::<Seq<char>>::empty());
    assert(spec_name_views(names@) =~= spec_name_views(names@) + Seq::<Seq<char>>::empty());
    names
}

/// The covariance/correlation kernel's names for `ncols` columns.
pub fn correlation_parameter_names(ncols: usize) -> (names: Vec<String>)
    requires
        ncols < usize::MAX,
    ensures
        spec_name_views(names@) == spec_correlation_names(ncols as nat),
{
    let mut names = pair_parameter_names("covariance_x", ncols);
    let mut correlations = pair_parameter_names("correlation_x", ncols);
    let ghost cov = names@;
    let ghost cor = correlations@;
    names.append(&mut correlations);
    assert(spec_name_views(names@) =~= spec_name_views(cov) + spec_name_views(cor));
    names
}

/// The linear-regression kernel's names for `ncols` columns.
pub fn linreg_parameter_names(ncols: usize, intercept: bool) -> (names: Vec<String>)
    requires
        1 <= ncols < usize::MAX,
    ensures
        spec_name_views(names@) == spec_linreg_names(ncols as nat, intercept),
{
    let predictors = ncols - 1;
    let mut names: Vec<String> = Vec::new();
    if intercept {
        names.push("linreg_b_intercept".to_owned());
    }
    let ghost head = names@;
    assert(spec_name_views(head) =~= (if intercept {
        seq!["linreg_b_intercept"@]
    } else {
        Seq::<Seq<char>>::empty()
    }));
    for k in 0..predictors
        invariant
            predictors < usize::MAX,
            names@.len() == head.len() + k,
            names@.take(head.len() as int) == head,
            forall|m: int|
                0 <= m < k ==> (#[trigger] names@[head.len() + m])@ == "linreg_b_X"@
                    + spec_dec_digits((m + 1) as nat),
    {
        let mut name = "linreg_b_X".to_owned();
        let digits = usize_to_string(k + 1);
        name.append(digits.as_str());
        names.push(name);
        assert(names@.take(head.len() as int) =~= head);
    }
    let ghost with_b = names@;
    names.push("linreg_sigma".to_owned());
    names.push("linreg_R2".to_owned());
    let ghost with_stats = names@;
    for k in 0..predictors
        invariant
            predictors < usize::MAX,
            names@.len() == with_stats.len() + k,
            names@.take(with_stats.len() as int) == with_stats,
            forall|m: int|
                0 <= m < k ==> (#[trigger] names@[with_stats.len() + m])@ == "linreg_beta_X"@
                    + spec_dec_digits((m + 1) as nat),
    {
        let mut name = "linreg_beta_X".to_owned();
        let digits = usize_to_string(k + 1);
        name.append(digits.as_str());
        names.push(name);
        assert(names@.take(with_stats.len() as int) =~= with_stats);
    }
    proof {
        let p = ncols as nat;
        let h = (if intercept {
            seq!["linreg_b_intercept"@]
        } else {
            Seq::<Seq<char>>::empty()
        });
        let b = spec_indexed_names("linreg_b_X"@, predictors as nat);
        let s = seq!["linreg_sigma"@, "linreg_R2"@];
        let t = spec_indexed_names("linreg_beta_X"@, predictors as nat);
        let hl = head.len() as int;
        assert(spec_linreg_names(p, intercept) == h + b + s + t);
        assert(h.len() == hl && b.len() == predictors && s.len() == 2 && t.len() == predictors);
        assert(names@.len() == hl + predictors + 2 + predictors);
        assert forall|idx: int| 0 <= idx < names@.len() implies #[trigger] spec_name_views(
            names@,
        )[idx] == (h + b + s + t)[idx] by {
            assert(spec_name_views(names@)[idx] == names@[idx]@);
            assert(names@.take(with_stats.len() as int) == with_stats);
            if idx < with_stats.len() {
                assert(names@[idx] == with_stats[idx]);
            }
            if idx < hl {
                assert(with_stats[idx] == with_b[idx]);
                assert(with_b.take(hl) == head);
                assert(with_b[idx] == head[idx]);
                assert(names@[idx]@ == spec_name_views(head)[idx]);
                assert((h + b + s + t)[idx] == h[idx]);
            } else if idx < hl + predictors {
                assert(with_stats[idx] == with_b[idx]);
                let m = idx - hl;
                assert(with_b[head.len() + m]@ == "linreg_b_X"@ + spec_dec_digits((m + 1) as nat));
                assert(names@[idx]@ == "linreg_b_X"@ + spec_dec_digits((idx - hl + 1) as nat));
                assert((h + b + s + t)[idx] == b[idx - hl]);
            } else if idx < hl + predictors + 2 {
                assert(with_stats[idx] == names@[idx]);
                assert((h + b + s + t)[idx] == s[idx - hl - predictors]);
            } else {
                assert(names@[with_stats.len() + (idx - hl - predictors - 2)]@ == "linreg_beta_X"@
                    + spec_dec_digits((idx - hl - predictors - 2 + 1) as nat));
                assert((h + b + s + t)[idx] == t[idx - hl - predictors - 2]);
            }
        }
        assert(spec_name_views(names@) =~= spec_linreg_names(p, intercept));
    }
    names
}

/// The quantile kernel's names for `ncols` columns and the given labels.
pub fn quantile_parameter_names(ncols: usize, labels: &Vec<String>) -> (names: Vec<String>)
    requires
        ncols < usize::MAX,
    ensures
        spec_name_views(names@) == spec_quantile_names_from(
            spec_name_views(labels@),
            ncols as nat,
            1,
            0,
        ),
{
    let ghost lbl = spec_name_views(labels@);
    let ghost p = ncols as nat;
    let nlabels = labels.len();
    let mut names: Vec<String> = Vec::new();
    let mut j: usize = 1;
    while j <= ncols
        invariant
            ncols < usize::MAX,
            p == ncols as nat,
            1 <= j <= ncols + 1,
            nlabels == labels@.len(),
            lbl == spec_name_views(labels@),
            spec_quantile_names_from(lbl, p, 1, 0) =~= spec_name_views(names@)
                + spec_quantile_names_from(lbl, p, j as nat, 0),
        decreases ncols + 1 - j,
    {
        for k in 0..nlabels
            invariant
                ncols < usize::MAX,
                p == ncols as nat,
                1 <= j <= ncols,
                nlabels == labels@.len(),
                lbl == spec_name_views(labels@),
                spec_quantile_names_from(lbl, p, 1, 0) =~= spec_name_views(names@)
                    + spec_quantile_names_from(lbl, p, j as nat, k as nat),
        {
            let mut name = "quantile_x".to_owned();
            let digits = usize_to_string(j);
            name.append(digits.as_str());
            name.append("_");
            name.append(labels[k].as_str());
            let ghost before = names@;
            names.push(name);
            proof {
                assert(spec_name_views(names@) =~= spec_name_views(before).push(
                    "quantile_x"@ + spec_dec_digits(j as nat) + "_"@ + lbl[k as int],
                ));
                assert(spec_quantile_names_from(lbl, p, j as nat, k as nat) == seq![
                    "quantile_x"@ + spec_dec_digits(j as nat) + "_"@ + lbl[k as int],
                ] + spec_quantile_names_from(lbl, p, j as nat, (k + 1) as nat));
                assert(spec_name_views(before) + spec_quantile_names_from(
                    lbl,
                    p,
                    j as nat,
                    k as nat,
                ) =~= spec_name_views(names@) + spec_quantile_names_from(
                    lbl,
                    p,
                    j as nat,
                    (k + 1) as nat,
                ));
            }
        }
        assert(spec_quantile_names_from(lbl, p, j as nat, nlabels as nat)
            == spec_quantile_names_from(lbl, p, (j + 1) as nat, 0));
        j = j + 1;
    }
    assert(spec_quantile_names_from(lbl, p, j as nat, 0) =~= Seq::<Seq<char>>::empty());
    assert(spec_name_views(names@) =~= spec_name_views(names@) + Seq::<Seq<char>>::empty());
    names
}

// ---------------------------------------------------------------------------
// Column-wise counting
// ---------------------------------------------------------------------------

/// The counter state for column `c` after all rows of `x` were pushed with
/// their weights.
pub open spec fn spec_column_counter(x: Seq<Seq<u64>>, wgt: Seq<u64>, c: int) -> Seq<
    (u64, Seq<u64>),
>
    decreases x.len(),
{
    if x.len() == 0 || wgt.len() == 0 {
        Seq::empty()
    } else {
        spec_counter_push(
            spec_column_counter(x.drop_last(), wgt.drop_last(), c),
            x.last()[c],
            wgt.last(),
        )
    }
}

/// Build one ordered weighted value counter per column of `x`, feeding each
/// row's value with the row's weight; NaN values are left out by the counter
/// itself.
pub fn weighted_count_values(x: &Matrix, wgt: &Vec<u64>) -> (counters: Vec<OrderedF64Counts>)
    requires
        x.wf(),
        x@.len() == wgt@.len(),
    ensures
        counters@.len() == x.spec_ncols(),
        forall|c: int|
            0 <= c < counters@.len() ==> (#[trigger] counters@[c])@ == spec_column_counter(
                x@,
                wgt@,
                c,
            ),
        forall|c: int| 0 <= c < counters@.len() ==> spec_counter_wf((#[trigger] counters@[c])@),
{
    let ncols = x.ncols();
    let nrows = x.nrows();
    let mut counters: Vec<OrderedF64Counts> = Vec::new();
    for c in 0..ncols
        invariant
            counters@.len() == c,
            forall|k: int|
                0 <= k < c ==> (#[trigger] counters@[k])@ == Seq::<(u64, Seq<u64>)>::empty(),
            forall|k: int| 0 <= k < c ==> (#[trigger] counters@[k]).wf(),
            forall|k: int| 0 <= k < c ==> (#[trigger] counters@[k]).spec_sum_of_cases() == 0,
    {
        counters.push(OrderedF64Counts::new());
    }
    assert forall|k: int| 0 <= k < ncols implies (#[trigger] counters@[k])@ == spec_column_counter(
        x@.take(0),
        wgt@.take(0),
        k,
    ) by {
        assert(x@.take(0).len() == 0);
    }
    for rr in 0..nrows
        invariant
            x.wf(),
            nrows == x@.len() == wgt@.len(),
            ncols == x.spec_ncols(),
            counters@.len() == ncols,
            forall|k: int|
                0 <= k < ncols ==> (#[trigger] counters@[k])@ == spec_column_counter(
                    x@.take(rr as int),
                    wgt@.take(rr as int),
                    k,
                ),
            forall|k: int| 0 <= k < ncols ==> (#[trigger] counters@[k]).wf(),
            forall|k: int|
                0 <= k < ncols ==> (#[trigger] counters@[k]).spec_sum_of_cases() <= rr,
    {
        assert(x@.take(rr + 1).drop_last() =~= x@.take(rr as int));
        assert(wgt@.take(rr + 1).drop_last() =~= wgt@.take(rr as int));
        assert(x@.take(rr + 1).last() == x@[rr as int]);
        assert(wgt@.take(rr + 1).last() == wgt@[rr as int]);
        let weight = wgt[rr];
        for cc in 0..ncols
            invariant
                x.wf(),
                rr < nrows,
                nrows == x@.len() == wgt@.len(),
                ncols == x.spec_ncols(),
                weight == wgt@[rr as int],
                x@.take(rr + 1).drop_last() =~= x@.take(rr as int),
                wgt@.take(rr + 1).drop_last() =~= wgt@.take(rr as int),
                counters@.len() == ncols,
                forall|k: int|
                    cc <= k < ncols ==> (#[trigger] counters@[k])@ == spec_column_counter(
                        x@.take(rr as int),
                        wgt@.take(rr as int),
                        k,
                    ),
                forall|k: int|
                    0 <= k < cc ==> (#[trigger] counters@[k])@ == spec_column_counter(
                        x@.take(rr + 1),
                        wgt@.take(rr + 1),
                        k,
                    ),
                forall|k: int| 0 <= k < ncols ==> (#[trigger] counters@[k]).wf(),
                forall|k: int|
                    cc <= k < ncols ==> (#[trigger] counters@[k]).spec_sum_of_cases() <= rr,
                forall|k: int|
                    0 <= k < cc ==> (#[trigger] counters@[k]).spec_sum_of_cases() <= rr + 1,
        {
            let value = x.get(rr, cc);
            let mut counter = counters.remove(cc);
            counter.push(value, weight);
            counters.insert(cc, counter);
            assert(counters@[cc as int]@ == spec_column_counter(
                x@.take(rr + 1),
                wgt@.take(rr + 1),
                cc as int,
            ));
        }
    }
    assert(x@.take(nrows as int) =~= x@);
    assert(wgt@.take(nrows as int) =~= wgt@);
    counters
}

} // verus!
