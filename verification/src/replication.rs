//! The replication engine's result type and input rules.
//!
//! The engine evaluates an estimator once per imputation and once per
//! replicate weight column, combines the evaluations by Rubin's rules, and
//! reports four parallel value vectors under the parameter names.  The
//! numeric combination runs on IEEE doubles outside this crate; what is
//! stated here is the result's shape and the rules every engine call must
//! satisfy: one weight vector shared by all imputations or exactly one per
//! imputation, and likewise for replicate-weight matrices.

use vstd::prelude::*;
use crate::text::spec_name_views;

verus! {

/// The engine's result: final estimates, sampling variances, imputation
/// variances and standard errors, one of each per parameter name.
pub struct ReplicatedEstimates {
    parameter_names: Vec<String>,
    final_estimates: Vec<u64>,
    sampling_variances: Vec<u64>,
    imputation_variances: Vec<u64>,
    standard_errors: Vec<u64>,
}

impl ReplicatedEstimates {
    /// The parameter names, as sequences of characters.
    pub closed spec fn spec_parameter_names(&self) -> Seq<Seq<char>> {
        spec_name_views(self.parameter_names@)
    }

    /// The combined point estimates.
    pub closed spec fn spec_final_estimates(&self) -> Seq<u64> {
        self.final_estimates@
    }

    /// The combined sampling variances.
    pub closed spec fn spec_sampling_variances(&self) -> Seq<u64> {
        self.sampling_variances@
    }

    /// The between-imputation variances.
    pub closed spec fn spec_imputation_variances(&self) -> Seq<u64> {
        self.imputation_variances@
    }

    /// The combined standard errors.
    pub closed spec fn spec_standard_errors(&self) -> Seq<u64> {
        self.standard_errors@
    }

    /// All four value vectors run parallel to the names.
    pub open spec fn wf(&self) -> bool {
        &&& self.spec_final_estimates().len() == self.spec_parameter_names().len()
        &&& self.spec_sampling_variances().len() == self.spec_parameter_names().len()
        &&& self.spec_imputation_variances().len() == self.spec_parameter_names().len()
        &&& self.spec_standard_errors().len() == self.spec_parameter_names().len()
    }

    /// An engine result from its five parallel vectors.
    pub fn new(
        parameter_names: Vec<String>,
        final_estimates: Vec<u64>,
        sampling_variances: Vec<u64>,
        imputation_variances: Vec<u64>,
        standard_errors: Vec<u64>,
    ) -> (r: ReplicatedEstimates)
        requires
            final_estimates@.len() == parameter_names@.len(),
            sampling_variances@.len() == parameter_names@.len(),
            imputation_variances@.len() == parameter_names@.len(),
            standard_errors@.len() == parameter_names@.len(),
        ensures
            r.spec_parameter_names() == spec_name_views(parameter_names@),
            r.spec_final_estimates() == final_estimates@,
            r.spec_sampling_variances() == sampling_variances@,
            r.spec_imputation_variances() == imputation_variances@,
            r.spec_standard_errors() == standard_errors@,
            r.wf(),
    {
        ReplicatedEstimates {
            parameter_names,
            final_estimates,
            sampling_variances,
            imputation_variances,
            standard_errors,
        }
    }

    /// The parameter names.
    pub fn parameter_names(&self) -> (names: &Vec<String>)
        ensures
            spec_name_views(names@) == self.spec_parameter_names(),
    {
        &self.parameter_names
    }

    /// The combined point estimates.
    pub fn final_estimates(&self) -> (v: &Vec<u64>)
        ensures
            v@ == self.spec_final_estimates(),
    {
        &self.final_estimates
    }

    /// The combined sampling variances.
    pub fn sampling_variances(&self) -> (v: &Vec<u64>)
        ensures
            v@ == self.spec_sampling_variances(),
    {
        &self.sampling_variances
    }

    /// The between-imputation variances.
    pub fn imputation_variances(&self) -> (v: &Vec<u64>)
        ensures
            v@ == self.spec_imputation_variances(),
    {
        &self.imputation_variances
    }

    /// The combined standard errors.
    pub fn standard_errors(&self) -> (v: &Vec<u64>)
        ensures
            v@ == self.spec_standard_errors(),
    {
        &self.standard_errors
    }
}

/// The engine's length rule for its weight and replicate-weight lists: each
/// is either shared (one entry) or per-imputation (one entry per data set).
pub open spec fn spec_replication_lengths_ok(
    n_data: nat,
    n_weights: nat,
    n_repwgts: nat,
) -> bool {
    &&& (n_weights == 1 || n_weights == n_data)
    &&& (n_repwgts == 1 || n_repwgts == n_data)
}

/// Check the engine's length rule; a violation is fatal to the engine call.
pub fn replication_lengths_ok(n_data: usize, n_weights: usize, n_repwgts: usize) -> (ok: bool)
    ensures
        ok == spec_replication_lengths_ok(n_data as nat, n_weights as nat, n_repwgts as nat),
{
    (n_weights == 1 || n_weights == n_data) && (n_repwgts == 1 || n_repwgts == n_data)
}

} // verus!
