//! A catalogue of scalar summary statistics ("features") of a real-valued,
//! uniformly sampled time series, with the toolkit they are built from:
//! moments, autocorrelation, histogram and quantile binning, a Welch
//! periodogram, and piecewise-cubic spline detrending with a least-squares
//! solver.
//!
//! Samples travel through the engine as raw IEEE 754 binary64 bit patterns
//! (`u64`), so that everything the engine decides — dispatch, comparisons,
//! binning, counting, scanning, the boundary rule that keeps every returned
//! feature finite — is verified. Rounding arithmetic itself cannot be
//! verified here; the engine asks a caller-supplied [`arith::RealOps`]
//! provider for it and promises only what holds whatever the provider
//! returns.
//!
//! The normalization policy is fixed and uniform: the dispatcher hands the
//! raw series to every algorithm unchanged, with no z-scoring before
//! dispatch, so the baseline moments at the end of the catalogue describe
//! the series itself and callers who want unit-variance features normalize
//! first. Every published feature passes through the sanitation rule: a
//! non-finite raw value becomes exactly 0.0.

use vstd::prelude::*;

pub mod arith;
pub mod bits;
pub mod features;
pub mod sort;
pub mod spectral;
pub mod spline;
pub mod statistics;

use crate::arith::RealOps;

verus! {

/// The size of the feature catalogue: the canonical algorithms plus the
/// three baseline statistics (mean, standard deviation, trend slope) at the
/// end.
pub const N_CAT: usize = 25;

/// The one error the engine reports: a feature index outside the catalogue.
#[derive(Clone, Copy, Debug, PartialEq, Eq, Structural)]
pub enum FeatureError {
    InvalidFeatureIndex,
}

/// Computes feature `index` of the catalogue on the series, through the
/// caller's arithmetic provider. Exactly the indices below [`N_CAT`] are
/// accepted, and every accepted call returns a finite pattern: the raw
/// value passes the boundary rule [`bits::sanitize`], which turns NaN and
/// the infinities into zero.
pub fn compute<O: RealOps>(ops: &O, a: &Vec<u64>, index: usize) -> (r: Result<u64, FeatureError>)
    ensures
        r is Ok <==> index < N_CAT,
        r is Ok ==> bits::spec_is_finite(r.unwrap()),
        index >= N_CAT ==> r == Err::<u64, FeatureError>(FeatureError::InvalidFeatureIndex),
{
    if index >= N_CAT {
        return Err(FeatureError::InvalidFeatureIndex);
    }
    let raw: u64 = match index {
        // The outlier pair leads with the low side: the first entry sweeps
        // the negated series (outliers below), the second the series itself
        // (outliers above).
        0 => features::dn_outlier_include_np_001_mdrmd(ops, a, true),
        1 => features::dn_outlier_include_np_001_mdrmd(ops, a, false),
        2 => features::dn_histogram_mode_n(ops, a, 5),
        3 => features::dn_histogram_mode_n(ops, a, 10),
        4 => features::co_embed2_dist_tau_d_expfit_meandiff(ops, a),
        5 => features::co_f1ecac(ops, a),
        6 => features::co_first_min_ac(ops, a),
        7 => features::co_histogram_ami_even_tau_bins(ops, a, 2, 5),
        8 => features::co_trev_1_num(ops, a),
        9 => features::fc_local_simple_mean_tauresrat(ops, a, 1),
        10 => features::fc_local_simple_mean_stderr(ops, a, 3),
        11 => features::in_auto_mutual_info_stats_tau_gaussian_fmmi(ops, a, 40),
        12 => features::md_hrv_classic_pnn(ops, a, 40),
        13 => features::sb_binary_stats_diff_longstretch0(ops, a),
        14 => features::sb_binary_stats_mean_longstretch1(ops, a),
        15 => features::sb_motif_three_quantile_hh(ops, a),
        16 => features::sc_fluct_anal_2_50_1_logi_prop_r1(
            ops,
            a,
            1,
            features::FluctKind::RsRangeFit,
        ),
        17 => features::sc_fluct_anal_2_50_1_logi_prop_r1(ops, a, 2, features::FluctKind::Dfa),
        18 => features::sp_summaries_welch_rect(ops, a, features::SpectralSummary::AreaFifth),
        19 => features::sp_summaries_welch_rect(ops, a, features::SpectralSummary::Centroid),
        20 => features::sb_transition_matrix_3ac_sumdiagcov(ops, a),
        21 => features::pd_periodicity_wang_th0_01(ops, a),
        22 => statistics::mean(ops, a),
        23 => if a.len() >= 1 {
            statistics::std_dev(ops, a)
        } else {
            bits::NAN_BITS
        },
        _ => statistics::slope(ops, a),
    };
    Ok(bits::sanitize(raw))
}

/// Computes the whole catalogue: entry `i` is what `compute` returns for
/// index `i`, so the vector has length [`N_CAT`] and every entry is finite.
pub fn compute_all<O: RealOps>(ops: &O, a: &Vec<u64>) -> (r: Vec<u64>)
    ensures
        r@.len() == N_CAT,
        forall|i: int| 0 <= i < r@.len() ==> bits::spec_is_finite(#[trigger] r@[i]),
{
    let mut out: Vec<u64> = Vec::new();
    for i in 0..N_CAT
        invariant
            out@.len() == i,
            forall|k: int| 0 <= k < out@.len() ==> bits::spec_is_finite(#[trigger] out@[k]),
    {
        let v: u64 = match compute(ops, a, i) {
            Ok(v) => v,
            Err(_) => bits::ZERO_BITS,
        };
        proof {
            bits::lemma_constant_classes();
        }
        out.push(v);
    }
    out
}

/// The one-based front door: feature `n` of the catalogue for `n` between
/// one and [`N_CAT`], sanitized to a finite pattern like every other
/// published value.
pub fn compute_catch<O: RealOps>(ops: &O, a: &Vec<u64>, n: usize) -> (r: u64)
    requires
        1 <= n <= N_CAT,
    ensures
        bits::spec_is_finite(r),
{
    proof {
        bits::lemma_constant_classes();
    }
    match compute(ops, a, n - 1) {
        Ok(v) => v,
        Err(_) => bits::ZERO_BITS,
    }
}

/// Centres and scales a series to zero mean and unit sample variance, with
/// the same `n - 1` variance denominator the engine's standard deviation
/// uses everywhere; the empty series maps to the empty vector, and a
/// constant one comes back as the provider's division by zero, for the
/// dispatcher to sanitize.
pub fn zscore<O: RealOps>(ops: &O, a: &Vec<u64>) -> (r: Vec<u64>)
    ensures
        r@.len() == a@.len(),
{
    if a.len() == 0 {
        return Vec::new();
    }
    statistics::zscore(ops, a)
}

} // verus!
