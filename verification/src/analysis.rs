//! The fluent analysis builder.
//!
//! An `Analysis` gathers data, weights, replicate weights, an optional
//! grouping and an estimator choice, and turns them into a calculation plan:
//! one engine call per group key, each with its partitioned inputs.  The
//! numeric engine evaluates the plan; everything up to that point — the
//! defaults, the dimension rules, the grouping partition and the estimator
//! snapshot — is decided here.

use vstd::prelude::*;
use crate::bits::{ONE_BITS, spec_lt_value, lt_value_bits};
use crate::errors::{AnalysisError, InconsistencyError, MissingElementError};
use crate::estimates::{
    QuantileType, spec_mean_names, spec_correlation_names, spec_linreg_names,
    spec_quantile_names_from,
};
use crate::helper::{
    spec_group_keys, spec_select_rows, spec_select_entries, keys_contain,
};
use crate::matrix::Matrix;

verus! {

/// One requested quantile: the bit pattern of its value and the label used
/// in parameter names (the value's decimal rendering).
pub struct Quantile {
    /// The bit pattern of the quantile, in the unit interval.
    pub bits: u64,
    /// The label used in parameter names.
    pub label: String,
}

impl View for Quantile {
    type V = (u64, Seq<char>);

    open spec fn view(&self) -> (u64, Seq<char>) {
        (self.bits, self.label@)
    }
}

impl Clone for Quantile {
    /// A clone carries the same value and label.
    fn clone(&self) -> (res: Self)
        ensures
            res@ == self@,
    {
        Quantile { bits: self.bits, label: self.label.clone() }
    }
}

/// The views of a quantile list.
pub open spec fn spec_quantile_views(qs: Seq<Quantile>) -> Seq<(u64, Seq<char>)> {
    qs.map_values(|q: Quantile| q@)
}

/// The default quantile list: the three quartiles.
pub open spec fn spec_default_quantiles() -> Seq<(u64, Seq<char>)> {
    seq![
        (0x3FD0_0000_0000_0000u64, "0.25"@),
        (0x3FE0_0000_0000_0000u64, "0.5"@),
        (0x3FE8_0000_0000_0000u64, "0.75"@),
    ]
}

/// An estimator choice with the option snapshot it was made under.  The
/// snapshot is taken when the estimator is selected, so that later option
/// changes do not reach an already chosen estimator.
pub enum EstimatorConfig {
    /// The weighted column means.
    Mean,
    /// Weighted covariances and correlations over all column pairs.
    Correlation,
    /// Weighted linear regression of column 1 on the remaining columns.
    Linreg { intercept: bool },
    /// Weighted quantiles per column, the list sorted ascending by value.
    Quantiles { quantiles: Vec<Quantile>, quantile_type: QuantileType },
    /// Weighted frequency counts of the distinct values per column.
    Frequencies,
}

/// The mathematical content of an estimator choice.
pub enum EstimatorModel {
    Mean,
    Correlation,
    Linreg(bool),
    Quantiles(Seq<(u64, Seq<char>)>, QuantileType),
    Frequencies,
}

impl View for EstimatorConfig {
    type V = EstimatorModel;

    closed spec fn view(&self) -> EstimatorModel {
        match self {
            EstimatorConfig::Mean => EstimatorModel::Mean,
            EstimatorConfig::Correlation => EstimatorModel::Correlation,
            EstimatorConfig::Linreg { intercept } => EstimatorModel::Linreg(*intercept),
            EstimatorConfig::Quantiles { quantiles, quantile_type } => EstimatorModel::Quantiles(
                spec_quantile_views(quantiles@),
                *quantile_type,
            ),
            EstimatorConfig::Frequencies => EstimatorModel::Frequencies,
        }
    }
}

impl EstimatorConfig {
    /// The estimator's short name, as the summary line shows it.
    pub fn name(&self) -> (s: &'static str)
        ensures
            s@ == spec_estimator_label(Some(self@)),
    {
        match self {
            EstimatorConfig::Mean => "mean",
            EstimatorConfig::Correlation => "correlation",
            EstimatorConfig::Linreg { .. } => "linreg",
            EstimatorConfig::Quantiles { .. } => "quantiles",
            EstimatorConfig::Frequencies => "frequencies",
        }
    }
}

impl Clone for EstimatorConfig {
    /// A clone carries the same choice and snapshot.
    fn clone(&self) -> (res: Self)
        ensures
            res@ == self@,
    {
        match self {
            EstimatorConfig::Mean => EstimatorConfig::Mean,
            EstimatorConfig::Correlation => EstimatorConfig::Correlation,
            EstimatorConfig::Linreg { intercept } => EstimatorConfig::Linreg {
                intercept: *intercept,
            },
            EstimatorConfig::Quantiles { quantiles, quantile_type } => {
                let cloned = clone_quantiles(quantiles);
                assert(spec_quantile_views(cloned@) =~= spec_quantile_views(quantiles@));
                EstimatorConfig::Quantiles { quantiles: cloned, quantile_type: *quantile_type }
            },
            EstimatorConfig::Frequencies => EstimatorConfig::Frequencies,
        }
    }
}

/// The label the summary line uses for an estimator choice.
pub open spec fn spec_estimator_label(e: Option<EstimatorModel>) -> Seq<char> {
    match e {
        None => "none"@,
        Some(EstimatorModel::Mean) => "mean"@,
        Some(EstimatorModel::Correlation) => "correlation"@,
        Some(EstimatorModel::Linreg(_)) => "linreg"@,
        Some(EstimatorModel::Quantiles(_, _)) => "quantiles"@,
        Some(EstimatorModel::Frequencies) => "frequencies"@,
    }
}

/// The parameter names an estimator reports for a given column count.  For
/// every estimator but frequencies — whose names embed the observed values —
/// the names depend on the configuration and the column count alone.
pub open spec fn spec_fixed_parameter_names(e: EstimatorModel, p: nat) -> Seq<Seq<char>>
    recommends
        !(e is Frequencies),
{
    match e {
        EstimatorModel::Mean => spec_mean_names(p),
        EstimatorModel::Correlation => spec_correlation_names(p),
        EstimatorModel::Linreg(intercept) => spec_linreg_names(p, intercept),
        EstimatorModel::Quantiles(qs, _) => spec_quantile_names_from(
            qs.map_values(|q: (u64, Seq<char>)| q.1),
            p,
            1,
            0,
        ),
        EstimatorModel::Frequencies => Seq::empty(),
    }
}

/// Name stability: the parameter names of any estimator with fixed names
/// are a function of its configuration and the input's column count alone,
/// so a replicate re-evaluation, or any other imputation of the same width,
/// reports exactly the names of the point evaluation.
pub proof fn lemma_parameter_name_stability(e: EstimatorModel, x1: Matrix, x2: Matrix)
    requires
        !(e is Frequencies),
        x1.spec_ncols() == x2.spec_ncols(),
    ensures
        spec_fixed_parameter_names(e, x1.spec_ncols()) == spec_fixed_parameter_names(
            e,
            x2.spec_ncols(),
        ),
{
}

fn clone_quantiles(qs: &Vec<Quantile>) -> (res: Vec<Quantile>)
    ensures
        res@.len() == qs@.len(),
        forall|i: int| 0 <= i < qs@.len() ==> (#[trigger] res@[i])@ == qs@[i]@,
{
    let n = qs.len();
    let mut res: Vec<Quantile> = Vec::new();
    for i in 0..n
        invariant
            n == qs@.len(),
            res@.len() == i,
            forall|j: int| 0 <= j < i ==> (#[trigger] res@[j])@ == qs@[j]@,
    {
        res.push(qs[i].clone());
    }
    res
}

fn clone_matrices(ms: &Vec<Matrix>) -> (res: Vec<Matrix>)
    ensures
        res@.len() == ms@.len(),
        forall|i: int|
            0 <= i < ms@.len() ==> (#[trigger] res@[i])@ == ms@[i]@ && res@[i].spec_ncols()
                == ms@[i].spec_ncols(),
{
    let n = ms.len();
    let mut res: Vec<Matrix> = Vec::new();
    for i in 0..n
        invariant
            n == ms@.len(),
            res@.len() == i,
            forall|j: int|
                0 <= j < i ==> (#[trigger] res@[j])@ == ms@[j]@ && res@[j].spec_ncols()
                    == ms@[j].spec_ncols(),
    {
        res.push(ms[i].clone());
    }
    res
}

fn clone_values(vs: &Vec<u64>) -> (res: Vec<u64>)
    ensures
        res@ == vs@,
{
    let n = vs.len();
    let mut res: Vec<u64> = Vec::new();
    for i in 0..n
        invariant
            n == vs@.len(),
            res@.len() == i,
            forall|j: int| 0 <= j < i ==> #[trigger] res@[j] == vs@[j],
    {
        res.push(vs[i]);
    }
    assert(res@ =~= vs@);
    res
}

/// Sort a quantile list ascending by value: the result is a permutation of
/// the input whose bit patterns never descend in value order.
fn sort_quantiles(list: Vec<Quantile>) -> (sorted: Vec<Quantile>)
    ensures
        sorted@.len() == list@.len(),
        spec_quantile_views(sorted@).to_multiset() == spec_quantile_views(list@).to_multiset(),
        forall|i: int, j: int|
            #![trigger sorted@[i], sorted@[j]]
            0 <= i < j < sorted@.len() ==> !spec_lt_value(sorted@[j]@.0, sorted@[i]@.0),
{
    broadcast use vstd::seq_lib::group_to_multiset_ensures;

    let ghost whole = spec_quantile_views(list@).to_multiset();
    let mut rest = list;
    let mut sorted: Vec<Quantile> = Vec::new();
    while rest.len() > 0
        invariant
            spec_quantile_views(sorted@).to_multiset().add(
                spec_quantile_views(rest@).to_multiset(),
            ) =~= whole,
            sorted@.len() + rest@.len() == whole.len(),
            forall|i: int, j: int|
                #![trigger sorted@[i], sorted@[j]]
                0 <= i < j < sorted@.len() ==> !spec_lt_value(sorted@[j]@.0, sorted@[i]@.0),
            forall|i: int, j: int|
                #![trigger sorted@[i], rest@[j]]
                0 <= i < sorted@.len() && 0 <= j < rest@.len() ==> !spec_lt_value(
                    rest@[j]@.0,
                    sorted@[i]@.0,
                ),
        decreases rest@.len(),
    {
        let n = rest.len();
        let mut smallest: usize = 0;
        for k in 1..n
            invariant
                n == rest@.len(),
                smallest < n,
                forall|m: int| 0 <= m < k ==> !spec_lt_value(
                    (#[trigger] rest@[m])@.0,
                    rest@[smallest as int]@.0,
                ),
        {
            if lt_value_bits(rest[k].bits, rest[smallest].bits) {
                let ghost before = smallest as int;
                smallest = k;
                assert forall|m: int| 0 <= m < k + 1 implies !spec_lt_value(
                    (#[trigger] rest@[m])@.0,
                    rest@[smallest as int]@.0,
                ) by {
                    if m < k {
                        crate::bits::lemma_lt_value_trichotomy(rest@[m]@.0, rest@[before]@.0);
                        crate::bits::lemma_lt_value_trichotomy(rest@[k as int]@.0, rest@[before]@.0);
                        crate::bits::lemma_lt_value_trichotomy(rest@[m]@.0, rest@[k as int]@.0);
                        if spec_lt_value(rest@[m]@.0, rest@[k as int]@.0) {
                            crate::bits::lemma_lt_value_transitive(
                                rest@[m]@.0,
                                rest@[k as int]@.0,
                                rest@[before]@.0,
                            );
                        }
                    }
                }
            }
        }
        let ghost rest_before = rest@;
        let picked = rest.remove(smallest);
        let ghost sorted_before = sorted@;
        sorted.push(picked);
        proof {
            assert(spec_quantile_views(sorted@) =~= spec_quantile_views(sorted_before).push(
                picked@,
            ));
            assert(spec_quantile_views(rest@) =~= spec_quantile_views(rest_before).remove(
                smallest as int,
            ));
            assert(spec_quantile_views(rest_before)[smallest as int] == picked@);
            let sv = spec_quantile_views(sorted_before);
            let rv = spec_quantile_views(rest_before);
            sv.to_multiset_ensures();
            rv.to_multiset_ensures();
            assert(rv.remove(smallest as int).to_multiset() =~= rv.to_multiset().remove(picked@));
            assert(sv.push(picked@).to_multiset() =~= sv.to_multiset().insert(picked@));
            assert(spec_quantile_views(rest_before).remove(smallest as int).to_multiset()
                =~= spec_quantile_views(rest_before).to_multiset().remove(picked@));
            assert(spec_quantile_views(sorted@).to_multiset() =~= spec_quantile_views(
                sorted_before,
            ).to_multiset().insert(picked@));
            assert(spec_quantile_views(sorted@).to_multiset().add(
                spec_quantile_views(rest@).to_multiset(),
            ) =~= whole);
            assert forall|i: int, j: int|
                #![trigger sorted@[i], rest@[j]]
                0 <= i < sorted@.len() && 0 <= j < rest@.len() implies !spec_lt_value(
                rest@[j]@.0,
                sorted@[i]@.0,
            ) by {
                let before_j = if j < smallest {
                    j
                } else {
                    j + 1
                };
                assert(rest@[j] == rest_before[before_j]);
                if i < sorted_before.len() {
                    assert(sorted@[i] == sorted_before[i]);
                } else {
                    assert(sorted@[i] == picked);
                }
            }
        }
    }
    sorted
}

} // verus!

use crate::text::{spec_dec_digits, usize_to_string};

verus! {

/// Data handed to the builder: a single completed data set, or one data set
/// per imputation.
pub enum Imputation<'a> {
    /// One data set per imputation.
    Yes(&'a Vec<&'a Matrix>),
    /// A single data set, treated as one imputation.
    No(&'a Matrix),
}

/// Whether a stored matrix list carries the same contents as a given one.
pub open spec fn spec_same_matrices(stored: Option<Seq<Matrix>>, given: Seq<&Matrix>) -> bool {
    match stored {
        None => false,
        Some(s) => {
            &&& s.len() == given.len()
            &&& forall|i: int|
                0 <= i < s.len() ==> (#[trigger] s[i])@ == given[i]@ && s[i].spec_ncols()
                    == given[i].spec_ncols()
        },
    }
}

/// The analysis builder; see the module documentation.
pub struct Analysis {
    x: Option<Vec<Matrix>>,
    wgt: Option<Vec<u64>>,
    repwgts: Option<Matrix>,
    variance_adjustment_factor: u64,
    estimate: Option<EstimatorConfig>,
    groups: Option<Vec<Matrix>>,
    opt_intercept: Option<bool>,
    opt_quantiles: Option<Vec<Quantile>>,
    opt_quantile_type: Option<QuantileType>,
}

/// A fresh builder: no data, no weights, no estimator, no grouping, and a
/// variance adjustment factor of one.
pub fn analysis() -> (a: Analysis)
    ensures
        a.spec_x() is None,
        a.spec_wgt() is None,
        a.spec_repwgts() is None,
        a.spec_factor() == ONE_BITS,
        a.spec_estimate() is None,
        a.spec_groups() is None,
        a.spec_options() == (None::<bool>, None::<Seq<(u64, Seq<char>)>>, None::<QuantileType>),
{
    Analysis {
        x: None,
        wgt: None,
        repwgts: None,
        variance_adjustment_factor: ONE_BITS,
        estimate: None,
        groups: None,
        opt_intercept: None,
        opt_quantiles: None,
        opt_quantile_type: None,
    }
}

impl Analysis {
    /// The stored imputation data sets.
    pub closed spec fn spec_x(&self) -> Option<Seq<Matrix>> {
        match self.x {
            Some(ref v) => Some(v@),
            None => None,
        }
    }

    /// The stored weight vector.
    pub closed spec fn spec_wgt(&self) -> Option<Seq<u64>> {
        match self.wgt {
            Some(ref v) => Some(v@),
            None => None,
        }
    }

    /// The stored replicate-weight matrix.
    pub closed spec fn spec_repwgts(&self) -> Option<Matrix> {
        self.repwgts
    }

    /// The variance adjustment factor's bit pattern.
    pub closed spec fn spec_factor(&self) -> u64 {
        self.variance_adjustment_factor
    }

    /// The selected estimator with its option snapshot.
    pub closed spec fn spec_estimate(&self) -> Option<EstimatorModel> {
        match self.estimate {
            Some(ref e) => Some(e@),
            None => None,
        }
    }

    /// The stored grouping matrices.
    pub closed spec fn spec_groups(&self) -> Option<Seq<Matrix>> {
        match self.groups {
            Some(ref v) => Some(v@),
            None => None,
        }
    }

    /// The pending option state: intercept, quantile list, quantile mode.
    pub closed spec fn spec_options(&self) -> (
        Option<bool>,
        Option<Seq<(u64, Seq<char>)>>,
        Option<QuantileType>,
    ) {
        (
            self.opt_intercept,
            match self.opt_quantiles {
                Some(ref qs) => Some(spec_quantile_views(qs@)),
                None => None,
            },
            self.opt_quantile_type,
        )
    }

    /// Set the imputation data; a single matrix counts as one imputation.
    pub fn for_data(&mut self, data: Imputation)
        ensures
            match data {
                Imputation::Yes(list) => spec_same_matrices(final(self).spec_x(), list@),
                Imputation::No(m) => spec_same_matrices(final(self).spec_x(), seq![m]),
            },
            final(self).spec_wgt() == old(self).spec_wgt(),
            final(self).spec_repwgts() == old(self).spec_repwgts(),
            final(self).spec_factor() == old(self).spec_factor(),
            final(self).spec_estimate() == old(self).spec_estimate(),
            final(self).spec_groups() == old(self).spec_groups(),
            final(self).spec_options() == old(self).spec_options(),
    {
        match data {
            Imputation::Yes(list) => {
                let n = list.len();
                let mut v: Vec<Matrix> = Vec::new();
                for i in 0..n
                    invariant
                        n == list@.len(),
                        v@.len() == i,
                        forall|j: int|
                            0 <= j < i ==> (#[trigger] v@[j])@ == list@[j]@ && v@[j].spec_ncols()
                                == list@[j].spec_ncols(),
                {
                    let m = list[i];
                    v.push(m.clone());
                }
                self.x = Some(v);
            },
            Imputation::No(m) => {
                let mut v: Vec<Matrix> = Vec::new();
                v.push(m.clone());
                self.x = Some(v);
            },
        }
    }

    /// Set the grouping columns; a single matrix applies to all imputations.
    pub fn group_by(&mut self, data: Imputation)
        ensures
            match data {
                Imputation::Yes(list) => spec_same_matrices(final(self).spec_groups(), list@),
                Imputation::No(m) => spec_same_matrices(final(self).spec_groups(), seq![m]),
            },
            final(self).spec_x() == old(self).spec_x(),
            final(self).spec_wgt() == old(self).spec_wgt(),
            final(self).spec_repwgts() == old(self).spec_repwgts(),
            final(self).spec_factor() == old(self).spec_factor(),
            final(self).spec_estimate() == old(self).spec_estimate(),
            final(self).spec_options() == old(self).spec_options(),
    {
        match data {
            Imputation::Yes(list) => {
                let n = list.len();
                let mut v: Vec<Matrix> = Vec::new();
                for i in 0..n
                    invariant
                        n == list@.len(),
                        v@.len() == i,
                        forall|j: int|
                            0 <= j < i ==> (#[trigger] v@[j])@ == list@[j]@ && v@[j].spec_ncols()
                                == list@[j].spec_ncols(),
                {
                    let m = list[i];
                    v.push(m.clone());
                }
                self.groups = Some(v);
            },
            Imputation::No(m) => {
                let mut v: Vec<Matrix> = Vec::new();
                v.push(m.clone());
                self.groups = Some(v);
            },
        }
    }

    /// Set the sole weight vector.
    pub fn set_weights(&mut self, wgt: &Vec<u64>)
        ensures
            final(self).spec_wgt() == Some(wgt@),
            final(self).spec_x() == old(self).spec_x(),
            final(self).spec_repwgts() == old(self).spec_repwgts(),
            final(self).spec_factor() == old(self).spec_factor(),
            final(self).spec_estimate() == old(self).spec_estimate(),
            final(self).spec_groups() == old(self).spec_groups(),
            final(self).spec_options() == old(self).spec_options(),
    {
        self.wgt = Some(clone_values(wgt));
    }

    /// Set the sole replicate-weight matrix.
    pub fn with_replicate_weights(&mut self, replicate_weights: &Matrix)
        ensures
            match final(self).spec_repwgts() {
                Some(m) => m@ == replicate_weights@ && m.spec_ncols()
                    == replicate_weights.spec_ncols(),
                None => false,
            },
            final(self).spec_x() == old(self).spec_x(),
            final(self).spec_wgt() == old(self).spec_wgt(),
            final(self).spec_factor() == old(self).spec_factor(),
            final(self).spec_estimate() == old(self).spec_estimate(),
            final(self).spec_groups() == old(self).spec_groups(),
            final(self).spec_options() == old(self).spec_options(),
    {
        self.repwgts = Some(replicate_weights.clone());
    }

    /// Set the variance adjustment factor (as the bit pattern of its value).
    pub fn set_variance_adjustment_factor(&mut self, variance_adjustment_factor: u64)
        ensures
            final(self).spec_factor() == variance_adjustment_factor,
            final(self).spec_x() == old(self).spec_x(),
            final(self).spec_wgt() == old(self).spec_wgt(),
            final(self).spec_repwgts() == old(self).spec_repwgts(),
            final(self).spec_estimate() == old(self).spec_estimate(),
            final(self).spec_groups() == old(self).spec_groups(),
            final(self).spec_options() == old(self).spec_options(),
    {
        self.variance_adjustment_factor = variance_adjustment_factor;
    }

    /// Select the mean estimator.
    pub fn mean(&mut self)
        ensures
            final(self).spec_estimate() == Some(EstimatorModel::Mean),
            final(self).spec_x() == old(self).spec_x(),
            final(self).spec_wgt() == old(self).spec_wgt(),
            final(self).spec_repwgts() == old(self).spec_repwgts(),
            final(self).spec_factor() == old(self).spec_factor(),
            final(self).spec_groups() == old(self).spec_groups(),
            final(self).spec_options() == old(self).spec_options(),
    {
        self.estimate = Some(EstimatorConfig::Mean);
    }

    /// Select the covariance/correlation estimator.
    pub fn correlation(&mut self)
        ensures
            final(self).spec_estimate() == Some(EstimatorModel::Correlation),
            final(self).spec_x() == old(self).spec_x(),
            final(self).spec_wgt() == old(self).spec_wgt(),
            final(self).spec_repwgts() == old(self).spec_repwgts(),
            final(self).spec_factor() == old(self).spec_factor(),
            final(self).spec_groups() == old(self).spec_groups(),
            final(self).spec_options() == old(self).spec_options(),
    {
        self.estimate = Some(EstimatorConfig::Correlation);
    }

    /// Select the frequency estimator.
    pub fn frequencies(&mut self)
        ensures
            final(self).spec_estimate() == Some(EstimatorModel::Frequencies),
            final(self).spec_x() == old(self).spec_x(),
            final(self).spec_wgt() == old(self).spec_wgt(),
            final(self).spec_repwgts() == old(self).spec_repwgts(),
            final(self).spec_factor() == old(self).spec_factor(),
            final(self).spec_groups() == old(self).spec_groups(),
            final(self).spec_options() == old(self).spec_options(),
    {
        self.estimate = Some(EstimatorConfig::Frequencies);
    }

    /// Select the linear-regression estimator, with an intercept unless the
    /// intercept option was set to `false`.
    pub fn linreg(&mut self)
        ensures
            final(self).spec_estimate() == Some(
                EstimatorModel::Linreg(
                    match old(self).spec_options().0 {
                        Some(b) => b,
                        None => true,
                    },
                ),
            ),
            final(self).spec_x() == old(self).spec_x(),
            final(self).spec_wgt() == old(self).spec_wgt(),
            final(self).spec_repwgts() == old(self).spec_repwgts(),
            final(self).spec_factor() == old(self).spec_factor(),
            final(self).spec_groups() == old(self).spec_groups(),
            final(self).spec_options() == old(self).spec_options(),
    {
        let intercept = match self.opt_intercept {
            Some(b) => b,
            None => true,
        };
        self.estimate = Some(EstimatorConfig::Linreg { intercept });
    }

    /// Record the intercept option and re-select linear regression with it.
    pub fn with_intercept(&mut self, intercept: bool)
        ensures
            final(self).spec_estimate() == Some(EstimatorModel::Linreg(intercept)),
            final(self).spec_options() == (
                Some(intercept),
                old(self).spec_options().1,
                old(self).spec_options().2,
            ),
            final(self).spec_x() == old(self).spec_x(),
            final(self).spec_wgt() == old(self).spec_wgt(),
            final(self).spec_repwgts() == old(self).spec_repwgts(),
            final(self).spec_factor() == old(self).spec_factor(),
            final(self).spec_groups() == old(self).spec_groups(),
    {
        self.opt_intercept = Some(intercept);
        self.linreg();
    }

    /// Select the quantile estimator: the pending quantile list — or the
    /// quartiles by default — sorted ascending by value, under the pending
    /// interpolation mode — or interpolation by default.
    pub fn quantiles(&mut self)
        ensures
            ({
                let source = match old(self).spec_options().1 {
                    Some(qs) => qs,
                    None => spec_default_quantiles(),
                };
                let mode = match old(self).spec_options().2 {
                    Some(t) => t,
                    None => QuantileType::Interpolation,
                };
                match final(self).spec_estimate() {
                    Some(EstimatorModel::Quantiles(qs, qt)) => {
                        &&& qt == mode
                        &&& qs.len() == source.len()
                        &&& qs.to_multiset() == source.to_multiset()
                        &&& forall|i: int, j: int|
                            0 <= i < j < qs.len() ==> !spec_lt_value(
                                (#[trigger] qs[j]).0,
                                (#[trigger] qs[i]).0,
                            )
                    },
                    _ => false,
                }
            }),
            final(self).spec_x() == old(self).spec_x(),
            final(self).spec_wgt() == old(self).spec_wgt(),
            final(self).spec_repwgts() == old(self).spec_repwgts(),
            final(self).spec_factor() == old(self).spec_factor(),
            final(self).spec_groups() == old(self).spec_groups(),
            final(self).spec_options() == old(self).spec_options(),
    {
        let source: Vec<Quantile> = match &self.opt_quantiles {
            Some(qs) => clone_quantiles(qs),
            None => default_quantiles(),
        };
        proof {
            assert(spec_quantile_views(source@) =~= (match old(self).spec_options().1 {
                Some(qs) => qs,
                None => spec_default_quantiles(),
            }));
        }
        let sorted = sort_quantiles(source);
        let mode = match self.opt_quantile_type {
            Some(t) => t,
            None => QuantileType::Interpolation,
        };
        self.estimate = Some(EstimatorConfig::Quantiles { quantiles: sorted, quantile_type: mode });
    }

    /// Record the quantile list and re-select the quantile estimator.
    pub fn set_quantiles(&mut self, quantiles: Vec<Quantile>)
        ensures
            final(self).spec_options() == (
                old(self).spec_options().0,
                Some(spec_quantile_views(quantiles@)),
                old(self).spec_options().2,
            ),
            ({
                let mode = match old(self).spec_options().2 {
                    Some(t) => t,
                    None => QuantileType::Interpolation,
                };
                match final(self).spec_estimate() {
                    Some(EstimatorModel::Quantiles(qs, qt)) => {
                        &&& qt == mode
                        &&& qs.len() == quantiles@.len()
                        &&& qs.to_multiset() == spec_quantile_views(quantiles@).to_multiset()
                        &&& forall|i: int, j: int|
                            0 <= i < j < qs.len() ==> !spec_lt_value(
                                (#[trigger] qs[j]).0,
                                (#[trigger] qs[i]).0,
                            )
                    },
                    _ => false,
                }
            }),
            final(self).spec_x() == old(self).spec_x(),
            final(self).spec_wgt() == old(self).spec_wgt(),
            final(self).spec_repwgts() == old(self).spec_repwgts(),
            final(self).spec_factor() == old(self).spec_factor(),
            final(self).spec_groups() == old(self).spec_groups(),
    {
        self.opt_quantiles = Some(quantiles);
        self.quantiles();
    }

    /// Record the quantile mode and re-select the quantile estimator.
    pub fn set_quantile_type(&mut self, quantile_type: QuantileType)
        ensures
            final(self).spec_options() == (
                old(self).spec_options().0,
                old(self).spec_options().1,
                Some(quantile_type),
            ),
            ({
                let source = match old(self).spec_options().1 {
                    Some(qs) => qs,
                    None => spec_default_quantiles(),
                };
                match final(self).spec_estimate() {
                    Some(EstimatorModel::Quantiles(qs, qt)) => {
                        &&& qt == quantile_type
                        &&& qs.len() == source.len()
                        &&& qs.to_multiset() == source.to_multiset()
                        &&& forall|i: int, j: int|
                            0 <= i < j < qs.len() ==> !spec_lt_value(
                                (#[trigger] qs[j]).0,
                                (#[trigger] qs[i]).0,
                            )
                    },
                    _ => false,
                }
            }),
            final(self).spec_x() == old(self).spec_x(),
            final(self).spec_wgt() == old(self).spec_wgt(),
            final(self).spec_repwgts() == old(self).spec_repwgts(),
            final(self).spec_factor() == old(self).spec_factor(),
            final(self).spec_groups() == old(self).spec_groups(),
    {
        self.opt_quantile_type = Some(quantile_type);
        self.quantiles();
    }

    /// An independent builder carrying the same state.
    pub fn copy(&self) -> (other: Analysis)
        ensures
            spec_same_matrices_opt(other.spec_x(), self.spec_x()),
            other.spec_wgt() == self.spec_wgt(),
            spec_same_matrix_opt(other.spec_repwgts(), self.spec_repwgts()),
            other.spec_factor() == self.spec_factor(),
            other.spec_estimate() == self.spec_estimate(),
            spec_same_matrices_opt(other.spec_groups(), self.spec_groups()),
            other.spec_options() == self.spec_options(),
    {
        Analysis {
            x: match &self.x {
                Some(v) => Some(clone_matrices(v)),
                None => None,
            },
            wgt: match &self.wgt {
                Some(v) => Some(clone_values(v)),
                None => None,
            },
            repwgts: match &self.repwgts {
                Some(m) => Some(m.clone()),
                None => None,
            },
            variance_adjustment_factor: self.variance_adjustment_factor,
            estimate: match &self.estimate {
                Some(e) => Some(e.clone()),
                None => None,
            },
            groups: match &self.groups {
                Some(v) => Some(clone_matrices(v)),
                None => None,
            },
            opt_intercept: self.opt_intercept,
            opt_quantiles: match &self.opt_quantiles {
                Some(qs) => {
                    let cloned = clone_quantiles(qs);
                    assert(spec_quantile_views(cloned@) =~= spec_quantile_views(qs@));
                    Some(cloned)
                },
                None => None,
            },
            opt_quantile_type: self.opt_quantile_type,
        }
    }
}

/// Whether two stored matrix lists carry the same contents.
pub open spec fn spec_same_matrices_opt(a: Option<Seq<Matrix>>, b: Option<Seq<Matrix>>) -> bool {
    match (a, b) {
        (None, None) => true,
        (Some(s), Some(t)) => {
            &&& s.len() == t.len()
            &&& forall|i: int|
                0 <= i < s.len() ==> (#[trigger] s[i])@ == t[i]@ && s[i].spec_ncols()
                    == t[i].spec_ncols()
        },
        _ => false,
    }
}

/// Whether two stored matrices carry the same contents.
pub open spec fn spec_same_matrix_opt(a: Option<Matrix>, b: Option<Matrix>) -> bool {
    match (a, b) {
        (None, None) => true,
        (Some(s), Some(t)) => s@ == t@ && s.spec_ncols() == t.spec_ncols(),
        _ => false,
    }
}

/// The default quantile list: the three quartiles, labelled as their
/// decimal renderings.
fn default_quantiles() -> (qs: Vec<Quantile>)
    ensures
        spec_quantile_views(qs@) == spec_default_quantiles(),
{
    let mut qs: Vec<Quantile> = Vec::new();
    qs.push(Quantile { bits: 0x3FD0_0000_0000_0000u64, label: "0.25".to_owned() });
    qs.push(Quantile { bits: 0x3FE0_0000_0000_0000u64, label: "0.5".to_owned() });
    qs.push(Quantile { bits: 0x3FE8_0000_0000_0000u64, label: "0.75".to_owned() });
    assert(spec_quantile_views(qs@) =~= spec_default_quantiles());
    qs
}

} // verus!

verus! {

// ---------------------------------------------------------------------------
// The summary line
// ---------------------------------------------------------------------------

/// The grouping part of the summary line.
pub open spec fn spec_group_info(groups: Option<Seq<Matrix>>) -> Seq<char> {
    match groups {
        None => Seq::empty(),
        Some(gs) => " by "@ + spec_dec_digits(gs[0].spec_ncols()) + " grouping columns"@,
    }
}

/// The data part of the summary line.
pub open spec fn spec_data_info(x: Option<Seq<Matrix>>) -> Seq<char> {
    match x {
        None => "no data"@,
        Some(xs) => spec_dec_digits(xs.len()) + " datasets with "@ + spec_dec_digits(xs[0]@.len())
            + " cases"@,
    }
}

/// The weight part of the summary line; the weight sum's rendering is
/// supplied by the caller.
pub open spec fn spec_wgt_info(w: Option<Seq<u64>>, sum_label: Seq<char>) -> Seq<char> {
    match w {
        None => "wgt missing"@,
        Some(ws) => spec_dec_digits(ws.len()) + " weights of sum "@ + sum_label,
    }
}

/// The factor part of the summary line: shown only when the factor is not
/// one; its rendering is supplied by the caller.
pub open spec fn spec_factor_info(factor: u64, factor_label: Seq<char>) -> Seq<char> {
    if factor == ONE_BITS {
        Seq::empty()
    } else {
        ", factor "@ + factor_label
    }
}

/// The replicate-weight part of the summary line.
pub open spec fn spec_repwgt_info(r: Option<Matrix>, factor: u64, factor_label: Seq<char>) -> Seq<
    char,
> {
    match r {
        None => "no replicate weights"@,
        Some(m) => spec_dec_digits(m.spec_ncols()) + " replicate weights"@ + spec_factor_info(
            factor,
            factor_label,
        ),
    }
}

impl Analysis {
    /// One human-readable line describing the analysis's current shape.
    /// The renderings of the weight sum and of the variance adjustment
    /// factor are supplied by the caller, which holds the encoded numbers.
    #[verifier::rlimit(100)]
    pub fn summary(&self, weight_sum: &str, factor: &str) -> (s: String)
        requires
            match self.spec_x() {
                Some(xs) => xs.len() > 0,
                None => true,
            },
            match self.spec_groups() {
                Some(gs) => gs.len() > 0,
                None => true,
            },
        ensures
            s@ == spec_estimator_label(self.spec_estimate()) + spec_group_info(self.spec_groups())
                + " ("@ + spec_data_info(self.spec_x()) + "; "@ + spec_wgt_info(
                self.spec_wgt(),
                weight_sum@,
            ) + "; "@ + spec_repwgt_info(self.spec_repwgts(), self.spec_factor(), factor@) + ")"@,
    {
        let mut s: String = match &self.estimate {
            Some(e) => e.name().to_owned(),
            None => "none".to_owned(),
        };
        let ghost t1 = spec_estimator_label(self.spec_estimate());
        assert(s@ == t1);
        match &self.groups {
            None => {},
            Some(gs) => {
                s.append(" by ");
                let digits = usize_to_string(gs[0].ncols());
                s.append(digits.as_str());
                s.append(" grouping columns");
            },
        }
        let ghost t2 = t1 + spec_group_info(self.spec_groups());
        assert(s@ == t2);
        s.append(" (");
        let ghost t3 = t2 + " ("@;
        assert(s@ == t3);
        match &self.x {
            None => {
                s.append("no data");
            },
            Some(xs) => {
                let digits = usize_to_string(xs.len());
                s.append(digits.as_str());
                s.append(" datasets with ");
                let cases = usize_to_string(xs[0].nrows());
                s.append(cases.as_str());
                s.append(" cases");
            },
        }
        let ghost t4 = t3 + spec_data_info(self.spec_x());
        assert(s@ == t4);
        s.append("; ");
        let ghost t5 = t4 + "; "@;
        assert(s@ == t5);
        match &self.wgt {
            None => {
                s.append("wgt missing");
            },
            Some(ws) => {
                let digits = usize_to_string(ws.len());
                s.append(digits.as_str());
                s.append(" weights of sum ");
                s.append(weight_sum);
            },
        }
        let ghost t6 = t5 + spec_wgt_info(self.spec_wgt(), weight_sum@);
        assert(s@ == t6);
        s.append("; ");
        let ghost t7 = t6 + "; "@;
        assert(s@ == t7);
        match &self.repwgts {
            None => {
                s.append("no replicate weights");
            },
            Some(m) => {
                let digits = usize_to_string(m.ncols());
                s.append(digits.as_str());
                s.append(" replicate weights");
                if self.variance_adjustment_factor != ONE_BITS {
                    s.append(", factor ");
                    s.append(factor);
                }
            },
        }
        let ghost t8 = t7 + spec_repwgt_info(self.spec_repwgts(), self.spec_factor(), factor@);
        assert(s@ == t8);
        s.append(")");
        assert(s@ == t8 + ")"@);
        s
    }
}

// ---------------------------------------------------------------------------
// The calculation plan
// ---------------------------------------------------------------------------

/// The key a group's results are stored under: the reserved overall key for
/// an ungrouped calculation, or the tuple of grouping values.
pub enum GroupKey {
    /// The reserved key of the ungrouped aggregate.
    Overall,
    /// One distinct tuple of grouping values, NaN canonicalised.
    Cells(Vec<u64>),
}

impl View for GroupKey {
    type V = Option<Seq<u64>>;

    open spec fn view(&self) -> Option<Seq<u64>> {
        match self {
            GroupKey::Overall => None,
            GroupKey::Cells(k) => Some(k@),
        }
    }
}

/// One engine call of a plan: a key and the inputs partitioned to it.
pub struct GroupCalculation {
    /// The key the result is stored under.
    pub key: GroupKey,
    /// The data, one matrix per contributing imputation.
    pub x: Vec<Matrix>,
    /// The weights: one vector shared by all imputations, or one per
    /// grouping matrix.
    pub wgt: Vec<Vec<u64>>,
    /// The replicate weights, aligned with the weights.
    pub repwgts: Vec<Matrix>,
}

/// Everything the replication engine needs: the estimator snapshot, the
/// variance adjustment factor and one entry per group key.
pub struct CalculationPlan {
    /// The selected estimator with its option snapshot.
    pub estimator: EstimatorConfig,
    /// The factor's bit pattern.
    pub variance_adjustment_factor: u64,
    /// One entry per group key.
    pub groups: Vec<GroupCalculation>,
}

/// The views of a matrix list.
pub open spec fn spec_matrix_views(ms: Seq<Matrix>) -> Seq<Seq<Seq<u64>>> {
    ms.map_values(|m: Matrix| m@)
}

/// The views of a list of value vectors.
pub open spec fn spec_vector_views(vs: Seq<Vec<u64>>) -> Seq<Seq<u64>> {
    vs.map_values(|v: Vec<u64>| v@)
}

/// The views of a key list.
pub open spec fn spec_key_views(ks: Seq<Vec<u64>>) -> Seq<Seq<u64>> {
    ks.map_values(|k: Vec<u64>| k@)
}

/// Fold a key list into an accumulator, keeping first appearances only.
pub open spec fn spec_add_new_keys(acc: Seq<Seq<u64>>, ks: Seq<Seq<u64>>) -> Seq<Seq<u64>>
    decreases ks.len(),
{
    if ks.len() == 0 {
        acc
    } else {
        let acc2 = if acc.contains(ks.first()) {
            acc
        } else {
            acc.push(ks.first())
        };
        spec_add_new_keys(acc2, ks.drop_first())
    }
}

pub open spec fn spec_union_keys_from(groups: Seq<Matrix>, acc: Seq<Seq<u64>>) -> Seq<Seq<u64>>
    decreases groups.len(),
{
    if groups.len() == 0 {
        acc
    } else {
        spec_union_keys_from(
            groups.drop_first(),
            spec_add_new_keys(acc, spec_group_keys(groups.first()@)),
        )
    }
}

/// The distinct group keys over all grouping matrices, in order of first
/// appearance, earlier matrices first.
pub open spec fn spec_union_keys(groups: Seq<Matrix>) -> Seq<Seq<u64>> {
    spec_union_keys_from(groups, Seq::empty())
}

/// The data buckets a key receives: for each imputation whose grouping
/// matrix holds the key, the rows carrying it.
pub open spec fn spec_x_bucket_views(
    x: Seq<Matrix>,
    groups: Seq<Matrix>,
    multi: bool,
    key: Seq<u64>,
) -> Seq<Seq<Seq<u64>>>
    decreases x.len(),
{
    if x.len() == 0 {
        Seq::empty()
    } else {
        let prefix = spec_x_bucket_views(x.drop_last(), groups, multi, key);
        let g = if multi {
            groups[x.len() - 1]
        } else {
            groups[0]
        };
        let sel = spec_select_rows(x.last()@, g@, key);
        if sel.len() > 0 {
            prefix.push(sel)
        } else {
            prefix
        }
    }
}

/// The weight buckets a key receives: for each grouping matrix holding the
/// key, the weight entries carrying it.
pub open spec fn spec_wgt_bucket_views(wgt: Seq<u64>, groups: Seq<Matrix>, key: Seq<u64>) -> Seq<
    Seq<u64>,
>
    decreases groups.len(),
{
    if groups.len() == 0 {
        Seq::empty()
    } else {
        let prefix = spec_wgt_bucket_views(wgt, groups.drop_last(), key);
        let sel = spec_select_entries(wgt, groups.last()@, key);
        if sel.len() > 0 {
            prefix.push(sel)
        } else {
            prefix
        }
    }
}

/// The replicate-weight buckets a key receives, aligned with the weight
/// buckets.
pub open spec fn spec_repwgt_bucket_views(
    rep: Seq<Seq<u64>>,
    groups: Seq<Matrix>,
    key: Seq<u64>,
) -> Seq<Seq<Seq<u64>>>
    decreases groups.len(),
{
    if groups.len() == 0 {
        Seq::empty()
    } else {
        let prefix = spec_repwgt_bucket_views(rep, groups.drop_last(), key);
        let sel = spec_select_rows(rep, groups.last()@, key);
        if sel.len() > 0 {
            prefix.push(sel)
        } else {
            prefix
        }
    }
}

/// Whether data is present and non-empty.
pub open spec fn spec_has_data(x: Option<Seq<Matrix>>) -> bool {
    match x {
        Some(xs) => xs.len() > 0,
        None => false,
    }
}

/// The weight vector a calculation works with: the stored one, or the
/// all-ones default.
pub open spec fn spec_effective_wgt(w: Option<Seq<u64>>, ncases: nat) -> Seq<u64> {
    match w {
        Some(ws) => ws,
        None => Seq::new(ncases, |i: int| ONE_BITS),
    }
}

/// The replicate-weight rows a calculation works with: the stored matrix's,
/// or the zero-column default.
pub open spec fn spec_effective_rep(r: Option<Matrix>, ncases: nat) -> Seq<Seq<u64>> {
    match r {
        Some(m) => m@,
        None => Seq::new(ncases, |i: int| Seq::<u64>::empty()),
    }
}

/// A missing-element message.
pub open spec fn spec_missing_message(what: Seq<char>) -> Seq<char> {
    "Analysis is missing some element: "@ + what
}

/// An inconsistency message.
pub open spec fn spec_inconsistency_message(what: Seq<char>) -> Seq<char> {
    "Inconsistency in analysis: "@ + what
}

/// Whether any input's row count disagrees with the grouping matrix it is
/// split by.
pub open spec fn spec_rows_mismatch(
    xs: Seq<Matrix>,
    gs: Seq<Matrix>,
    wgt: Seq<u64>,
    rep: Seq<Seq<u64>>,
) -> bool {
    let multi = gs.len() > 1;
    ||| exists|i: int|
        0 <= i < xs.len() && (#[trigger] xs[i])@.len() != (if multi {
            gs[i]
        } else {
            gs[0]
        })@.len()
    ||| exists|i: int|
        0 <= i < gs.len() && (wgt.len() != (#[trigger] gs[i])@.len() || rep.len() != gs[i]@.len())
}

impl Analysis {
    /// The failure `calculate` reports in this state, if any: its message.
    pub open spec fn spec_calculate_error(&self) -> Option<Seq<char>> {
        if self.spec_estimate() is None {
            Some(spec_missing_message("estimate"@))
        } else if !spec_has_data(self.spec_x()) {
            Some(spec_missing_message("data"@))
        } else {
            let xs = match self.spec_x() {
                Some(xs) => xs,
                None => Seq::empty(),
            };
            let ncases = xs[0]@.len();
            let w = spec_effective_wgt(self.spec_wgt(), ncases);
            let rep = spec_effective_rep(self.spec_repwgts(), ncases);
            let grouped = match self.spec_groups() {
                Some(gs) => gs.len() > 0,
                None => false,
            };
            if !grouped {
                if w.len() != ncases {
                    Some(spec_inconsistency_message("unequal number of rows for data and weights"@))
                } else if rep.len() != ncases {
                    Some(
                        spec_inconsistency_message(
                            "unequal number of rows for data and replicate weights"@,
                        ),
                    )
                } else {
                    None
                }
            } else {
                let gs = match self.spec_groups() {
                    Some(gs) => gs,
                    None => Seq::empty(),
                };
                if gs.len() > 1 && gs.len() != xs.len() {
                    Some(
                        spec_inconsistency_message(
                            "number of data sets does not match number of sets with grouping columns"@,
                        ),
                    )
                } else if spec_rows_mismatch(xs, gs, w, rep) {
                    Some(spec_inconsistency_message("unequal number of rows in split_by"@))
                } else {
                    None
                }
            }
        }
    }
}

fn ones_vector(n: usize) -> (v: Vec<u64>)
    ensures
        v@ == Seq::new(n as nat, |i: int| ONE_BITS),
{
    let mut v: Vec<u64> = Vec::new();
    for i in 0..n
        invariant
            v@.len() == i,
            forall|j: int| 0 <= j < i ==> #[trigger] v@[j] == ONE_BITS,
    {
        v.push(ONE_BITS);
    }
    assert(v@ =~= Seq::new(n as nat, |i: int| ONE_BITS));
    v
}

} // verus!

verus! {

impl Analysis {
    /// Decide one calculation: check that an estimator and data are present,
    /// fill in the default weights (all ones) and the empty replicate
    /// weights, verify the dimension rules, and lay out one engine call per
    /// group key — the single overall key when no grouping is set, else one
    /// per distinct grouping tuple, each with the rows carrying it.  The
    /// numeric engine evaluates the returned plan, one call per entry.
    #[verifier::rlimit(100)]
    pub fn calculate(&mut self) -> (result: Result<CalculationPlan, AnalysisError>)
        requires
            match old(self).spec_x() {
                Some(xs) => forall|i: int| 0 <= i < xs.len() ==> (#[trigger] xs[i]).wf(),
                None => true,
            },
            match old(self).spec_groups() {
                Some(gs) => forall|i: int| 0 <= i < gs.len() ==> (#[trigger] gs[i]).wf(),
                None => true,
            },
            match old(self).spec_repwgts() {
                Some(m) => m.wf(),
                None => true,
            },
        ensures
            final(self).spec_x() == old(self).spec_x(),
            final(self).spec_groups() == old(self).spec_groups(),
            final(self).spec_estimate() == old(self).spec_estimate(),
            final(self).spec_factor() == old(self).spec_factor(),
            final(self).spec_options() == old(self).spec_options(),
            old(self).spec_wgt() is Some ==> final(self).spec_wgt() == old(self).spec_wgt(),
            old(self).spec_repwgts() is Some ==> final(self).spec_repwgts() == old(
                self,
            ).spec_repwgts(),
            (old(self).spec_estimate() is None || !spec_has_data(old(self).spec_x())) ==> {
                &&& final(self).spec_wgt() == old(self).spec_wgt()
                &&& final(self).spec_repwgts() == old(self).spec_repwgts()
            },
            (old(self).spec_estimate() is Some && spec_has_data(old(self).spec_x())) ==> {
                let xs = match old(self).spec_x() {
                    Some(xs) => xs,
                    None => Seq::empty(),
                };
                let ncases = xs[0]@.len();
                &&& final(self).spec_wgt() == Some(
                    spec_effective_wgt(old(self).spec_wgt(), ncases),
                )
                &&& match final(self).spec_repwgts() {
                    Some(m) => m@ == spec_effective_rep(old(self).spec_repwgts(), ncases),
                    None => false,
                }
            },
            match result {
                Err(e) => old(self).spec_calculate_error() == Some(e@),
                Ok(plan) => {
                    &&& old(self).spec_calculate_error() is None
                    &&& Some(plan.estimator@) == old(self).spec_estimate()
                    &&& plan.variance_adjustment_factor == old(self).spec_factor()
                    &&& ({
                        let xs = match old(self).spec_x() {
                            Some(xs) => xs,
                            None => Seq::empty(),
                        };
                        let ncases = xs[0]@.len();
                        let w = spec_effective_wgt(old(self).spec_wgt(), ncases);
                        let rep = spec_effective_rep(old(self).spec_repwgts(), ncases);
                        let grouped = match old(self).spec_groups() {
                            Some(gs) => gs.len() > 0,
                            None => false,
                        };
                        if !grouped {
                            &&& plan.groups@.len() == 1
                            &&& plan.groups@[0].key@ is None
                            &&& spec_matrix_views(plan.groups@[0].x@) == spec_matrix_views(xs)
                            &&& spec_vector_views(plan.groups@[0].wgt@) == seq![w]
                            &&& spec_matrix_views(plan.groups@[0].repwgts@) == seq![rep]
                        } else {
                            let gs = match old(self).spec_groups() {
                                Some(gs) => gs,
                                None => Seq::empty(),
                            };
                            let multi = gs.len() > 1;
                            let keys = spec_union_keys(gs);
                            &&& plan.groups@.len() == keys.len()
                            &&& forall|k: int|
                                0 <= k < keys.len() ==> (#[trigger] plan.groups@[k].key)@ == Some(
                                    keys[k],
                                )
                            &&& forall|k: int|
                                0 <= k < keys.len() ==> spec_matrix_views(
                                    (#[trigger] plan.groups@[k]).x@,
                                ) == spec_x_bucket_views(xs, gs, multi, keys[k])
                            &&& forall|k: int|
                                0 <= k < keys.len() ==> spec_vector_views(
                                    (#[trigger] plan.groups@[k]).wgt@,
                                ) == spec_wgt_bucket_views(w, gs, keys[k])
                            &&& forall|k: int|
                                0 <= k < keys.len() ==> spec_matrix_views(
                                    (#[trigger] plan.groups@[k]).repwgts@,
                                ) == spec_repwgt_bucket_views(rep, gs, keys[k])
                        }
                    })
                },
            },
    {
        if self.estimate.is_none() {
            return Err(AnalysisError::Missing(MissingElementError::new("estimate")));
        }
        let has_data = match &self.x {
            Some(xs) => xs.len() > 0,
            None => false,
        };
        if !has_data {
            return Err(AnalysisError::Missing(MissingElementError::new("data")));
        }
        let ncases = match &self.x {
            Some(xs) => xs[0].nrows(),
            None => 0,
        };
        let wgt_vec: Vec<u64> = match &self.wgt {
            Some(w) => clone_values(w),
            None => ones_vector(ncases),
        };
        assert(wgt_vec@ =~= spec_effective_wgt(old(self).spec_wgt(), old(self).spec_x().unwrap()[0]@.len()));
        let rep_mat: Matrix = match &self.repwgts {
            Some(m) => m.clone(),
            None => Matrix::zeros(ncases, 0),
        };
        proof {
            if old(self).spec_repwgts() is None {
                assert(rep_mat@ =~~= spec_effective_rep(
                    old(self).spec_repwgts(),
                    old(self).spec_x().unwrap()[0]@.len(),
                ));
            }
        }
        assert(rep_mat.wf());
        if self.wgt.is_none() {
            self.wgt = Some(clone_values(&wgt_vec));
        }
        if self.repwgts.is_none() {
            self.repwgts = Some(rep_mat.clone());
        }
        let grouped = match &self.groups {
            Some(gs) => gs.len() > 0,
            None => false,
        };
        let xs = self.x.as_ref().unwrap();
        let ghost xsg = old(self).spec_x().unwrap();
        assert(xs@ == xsg);
        if !grouped {
            if wgt_vec.len() != ncases {
                return Err(
                    AnalysisError::Inconsistent(
                        InconsistencyError::new("unequal number of rows for data and weights"),
                    ),
                );
            }
            if rep_mat.nrows() != ncases {
                return Err(
                    AnalysisError::Inconsistent(
                        InconsistencyError::new(
                            "unequal number of rows for data and replicate weights",
                        ),
                    ),
                );
            }
            let x_list = clone_matrices(xs);
            let mut wgt_list: Vec<Vec<u64>> = Vec::new();
            wgt_list.push(wgt_vec);
            let mut rep_list: Vec<Matrix> = Vec::new();
            rep_list.push(rep_mat);
            let mut groups_out: Vec<GroupCalculation> = Vec::new();
            groups_out.push(
                GroupCalculation {
                    key: GroupKey::Overall,
                    x: x_list,
                    wgt: wgt_list,
                    repwgts: rep_list,
                },
            );
            let estimator = match &self.estimate {
                Some(e) => e.clone(),
                None => EstimatorConfig::Mean,
            };
            let plan = CalculationPlan {
                estimator,
                variance_adjustment_factor: self.variance_adjustment_factor,
                groups: groups_out,
            };
            proof {
                assert(spec_matrix_views(plan.groups@[0].x@) =~= spec_matrix_views(xsg));
                assert(spec_vector_views(plan.groups@[0].wgt@) =~= seq![
                    spec_effective_wgt(old(self).spec_wgt(), xsg[0]@.len()),
                ]);
                assert(spec_matrix_views(plan.groups@[0].repwgts@) =~= seq![
                    spec_effective_rep(old(self).spec_repwgts(), xsg[0]@.len()),
                ]);
            }
            return Ok(plan);
        }
        let gs = self.groups.as_ref().unwrap();
        let ghost gsg = old(self).spec_groups().unwrap();
        assert(gs@ == gsg);
        let m = xs.len();
        let glen = gs.len();
        let multi = glen > 1;
        if multi && glen != m {
            return Err(
                AnalysisError::Inconsistent(
                    InconsistencyError::new(
                        "number of data sets does not match number of sets with grouping columns",
                    ),
                ),
            );
        }
        let mut rows_bad = false;
        for i in 0..m
            invariant
                m == xs@.len(),
                glen == gs@.len(),
                multi == (glen > 1),
                multi ==> glen == m,
                glen >= 1,
                xs@ == xsg,
                gs@ == gsg,
                rows_bad == (exists|j: int|
                    0 <= j < i && (#[trigger] xsg[j])@.len() != (if multi {
                        gsg[j]
                    } else {
                        gsg[0]
                    })@.len()),
        {
            let gi = if multi {
                &gs[i]
            } else {
                &gs[0]
            };
            if xs[i].nrows() != gi.nrows() {
                rows_bad = true;
                assert((#[trigger] xsg[i as int])@.len() != (if multi {
                    gsg[i as int]
                } else {
                    gsg[0]
                })@.len());
            }
        }
        let mut wr_bad = false;
        for i in 0..glen
            invariant
                m == xs@.len(),
                glen == gs@.len(),
                gs@ == gsg,
                wgt_vec@ == spec_effective_wgt(old(self).spec_wgt(), xsg[0]@.len()),
                rep_mat@ == spec_effective_rep(old(self).spec_repwgts(), xsg[0]@.len()),
                wr_bad == (exists|j: int|
                    0 <= j < i && (wgt_vec@.len() != (#[trigger] gsg[j])@.len() || rep_mat@.len()
                        != gsg[j]@.len())),
        {
            if wgt_vec.len() != gs[i].nrows() || rep_mat.nrows() != gs[i].nrows() {
                wr_bad = true;
                assert(wgt_vec@.len() != (#[trigger] gsg[i as int])@.len() || rep_mat@.len()
                    != gsg[i as int]@.len());
            }
        }
        if rows_bad || wr_bad {
            proof {
                assert(spec_rows_mismatch(
                    xsg,
                    gsg,
                    spec_effective_wgt(old(self).spec_wgt(), xsg[0]@.len()),
                    spec_effective_rep(old(self).spec_repwgts(), xsg[0]@.len()),
                ));
            }
            return Err(
                AnalysisError::Inconsistent(
                    InconsistencyError::new("unequal number of rows in split_by"),
                ),
            );
        }
        assert(!spec_rows_mismatch(
            xsg,
            gsg,
            spec_effective_wgt(old(self).spec_wgt(), xsg[0]@.len()),
            spec_effective_rep(old(self).spec_repwgts(), xsg[0]@.len()),
        ));
        assert(forall|j: int|
            0 <= j < m ==> (#[trigger] xsg[j])@.len() == (if multi {
                gsg[j]
            } else {
                gsg[0]
            })@.len());
        assert(forall|j: int|
            0 <= j < glen ==> wgt_vec@.len() == (#[trigger] gsg[j])@.len() && rep_mat@.len()
                == gsg[j]@.len());
        // The distinct keys over all grouping matrices, first appearance
        // first.
        let mut keys: Vec<Vec<u64>> = Vec::new();
        assert(gs@.skip(0) =~= gs@);
        assert(spec_key_views(keys@) =~= Seq::<Seq<u64>>::empty());
        for i in 0..glen
            invariant
                glen == gs@.len(),
                spec_union_keys(gs@) == spec_union_keys_from(
                    gs@.skip(i as int),
                    spec_key_views(keys@),
                ),
        {
            assert(gs@.skip(i as int).drop_first() =~= gs@.skip(i + 1));
            assert(gs@.skip(i as int).first() == gs@[i as int]);
            let ki = gs[i].get_keys();
            let ghost kv = spec_group_keys(gs@[i as int]@);
            assert(spec_key_views(ki@) =~= kv);
            assert(kv.skip(0) =~= kv);
            let nki = ki.len();
            for j in 0..nki
                invariant
                    nki == ki@.len(),
                    spec_key_views(ki@) == kv,
                    spec_union_keys(gs@) == spec_union_keys_from(
                        gs@.skip(i + 1),
                        spec_add_new_keys(spec_key_views(keys@), kv.skip(j as int)),
                    ),
            {
                assert(kv.skip(j as int).drop_first() =~= kv.skip(j + 1));
                assert(kv.skip(j as int).first() == kv[j as int]);
                let ghost acc = spec_key_views(keys@);
                if !keys_contain(&keys, &ki[j]) {
                    proof {
                        if acc.contains(kv[j as int]) {
                            let jj = choose|jj: int|
                                0 <= jj < acc.len() && acc[jj] == kv[j as int];
                            assert((keys@[jj])@ == (ki@[j as int])@);
                        }
                    }
                    let kc = clone_values(&ki[j]);
                    keys.push(kc);
                    assert(spec_key_views(keys@) =~= acc.push(kv[j as int]));
                } else {
                    proof {
                        let jj = choose|jj: int|
                            0 <= jj < keys@.len() && (#[trigger] keys@[jj])@ == (ki@[j as int])@;
                        assert(acc[jj] == kv[j as int]);
                        assert(acc.contains(kv[j as int]));
                    }
                }
            }
            assert(kv.skip(nki as int) =~= Seq::<Seq<u64>>::empty());
        }
        assert(gs@.skip(glen as int) =~= Seq::<Matrix>::empty());
        let ghost ukeys = spec_union_keys(gsg);
        assert(spec_key_views(keys@) == ukeys);
        // One engine call per key.
        let nkeys = keys.len();
        let mut groups_out: Vec<GroupCalculation> = Vec::new();
        for k in 0..nkeys
            invariant
                m == xs@.len(),
                glen == gs@.len(),
                multi == (glen > 1),
                multi ==> glen == m,
                glen >= 1,
                nkeys == keys@.len(),
                spec_key_views(keys@) == ukeys,
                ukeys == spec_union_keys(gsg),
                xs@ == xsg,
                gs@ == gsg,
                forall|i: int| 0 <= i < xs@.len() ==> (#[trigger] xs@[i]).wf(),
                rep_mat.wf(),
                wgt_vec@ == spec_effective_wgt(old(self).spec_wgt(), xsg[0]@.len()),
                rep_mat@ == spec_effective_rep(old(self).spec_repwgts(), xsg[0]@.len()),
                forall|j: int|
                    0 <= j < m ==> (#[trigger] xs@[j])@.len() == (if multi {
                        gs@[j]
                    } else {
                        gs@[0]
                    })@.len(),
                forall|j: int|
                    0 <= j < glen ==> wgt_vec@.len() == (#[trigger] gs@[j])@.len() && rep_mat@.len()
                        == gs@[j]@.len(),
                groups_out@.len() == k,
                forall|kk: int|
                    0 <= kk < k ==> (#[trigger] groups_out@[kk].key)@ == Some(ukeys[kk]),
                forall|kk: int|
                    0 <= kk < k ==> spec_matrix_views((#[trigger] groups_out@[kk]).x@)
                        == spec_x_bucket_views(xsg, gsg, multi, ukeys[kk]),
                forall|kk: int|
                    0 <= kk < k ==> spec_vector_views((#[trigger] groups_out@[kk]).wgt@)
                        == spec_wgt_bucket_views(wgt_vec@, gsg, ukeys[kk]),
                forall|kk: int|
                    0 <= kk < k ==> spec_matrix_views((#[trigger] groups_out@[kk]).repwgts@)
                        == spec_repwgt_bucket_views(rep_mat@, gsg, ukeys[kk]),
        {
            let key = clone_values(&keys[k]);
            assert(key@ == ukeys[k as int]);
            let mut xlist: Vec<Matrix> = Vec::new();
            for i in 0..m
                invariant
                    m == xs@.len(),
                    glen == gs@.len(),
                    multi == (glen > 1),
                    multi ==> glen == m,
                    glen >= 1,
                    xs@ == xsg,
                    gs@ == gsg,
                    key@ == ukeys[k as int],
                    forall|i2: int| 0 <= i2 < xs@.len() ==> (#[trigger] xs@[i2]).wf(),
                    forall|j: int|
                        0 <= j < m ==> (#[trigger] xs@[j])@.len() == (if multi {
                            gs@[j]
                        } else {
                            gs@[0]
                        })@.len(),
                    spec_matrix_views(xlist@) == spec_x_bucket_views(
                        xsg.take(i as int),
                        gsg,
                        multi,
                        key@,
                    ),
            {
                assert(xsg.take(i + 1).drop_last() =~= xsg.take(i as int));
                assert(xsg.take(i + 1).last() == xsg[i as int]);
                let gi = if multi {
                    &gs[i]
                } else {
                    &gs[0]
                };
                let ghost before = xlist@;
                let bucket = xs[i].select_rows_matching(gi, &key);
                if bucket.nrows() > 0 {
                    xlist.push(bucket);
                    assert(spec_matrix_views(xlist@) =~= spec_matrix_views(before).push(bucket@));
                }
            }
            assert(xsg.take(m as int) =~= xsg);
            let mut wgtlist: Vec<Vec<u64>> = Vec::new();
            for i in 0..glen
                invariant
                    glen == gs@.len(),
                    gs@ == gsg,
                    key@ == ukeys[k as int],
                    wgt_vec@ == spec_effective_wgt(old(self).spec_wgt(), xsg[0]@.len()),
                    forall|j: int|
                        0 <= j < glen ==> wgt_vec@.len() == (#[trigger] gs@[j])@.len(),
                    spec_vector_views(wgtlist@) == spec_wgt_bucket_views(
                        wgt_vec@,
                        gsg.take(i as int),
                        key@,
                    ),
            {
                assert(gsg.take(i + 1).drop_last() =~= gsg.take(i as int));
                assert(gsg.take(i + 1).last() == gsg[i as int]);
                let ghost before = wgtlist@;
                let bucket = crate::helper::select_entries_matching(&wgt_vec, &gs[i], &key);
                if bucket.len() > 0 {
                    wgtlist.push(bucket);
                    assert(spec_vector_views(wgtlist@) =~= spec_vector_views(before).push(
                        bucket@,
                    ));
                }
            }
            assert(gsg.take(glen as int) =~= gsg);
            let mut replist: Vec<Matrix> = Vec::new();
            for i in 0..glen
                invariant
                    glen == gs@.len(),
                    gs@ == gsg,
                    key@ == ukeys[k as int],
                    rep_mat.wf(),
                    rep_mat@ == spec_effective_rep(old(self).spec_repwgts(), xsg[0]@.len()),
                    forall|j: int| 0 <= j < glen ==> rep_mat@.len() == (#[trigger] gs@[j])@.len(),
                    spec_matrix_views(replist@) == spec_repwgt_bucket_views(
                        rep_mat@,
                        gsg.take(i as int),
                        key@,
                    ),
            {
                assert(gsg.take(i + 1).drop_last() =~= gsg.take(i as int));
                assert(gsg.take(i + 1).last() == gsg[i as int]);
                let ghost before = replist@;
                let bucket = rep_mat.select_rows_matching(&gs[i], &key);
                if bucket.nrows() > 0 {
                    replist.push(bucket);
                    assert(spec_matrix_views(replist@) =~= spec_matrix_views(before).push(
                        bucket@,
                    ));
                }
            }
            assert(gsg.take(glen as int) =~= gsg);
            groups_out.push(
                GroupCalculation { key: GroupKey::Cells(key), x: xlist, wgt: wgtlist, repwgts: replist },
            );
        }
        let estimator = match &self.estimate {
            Some(e) => e.clone(),
            None => EstimatorConfig::Mean,
        };
        Ok(
            CalculationPlan {
                estimator,
                variance_adjustment_factor: self.variance_adjustment_factor,
                groups: groups_out,
            },
        )
    }
}

} // verus!
