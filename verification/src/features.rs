//! The feature algorithm catalogue: each function turns a series into one
//! scalar, built from the toolkit in `statistics`, `spectral`, `sort` and
//! `spline`.
//!
//! Every algorithm is total: a series too short (or too long) for its
//! parameters yields the canonical NaN pattern, which the dispatcher's
//! boundary rule turns into zero. None of these functions can panic; the
//! numerical values flow through the caller's [`RealOps`] provider.

use vstd::prelude::*;
use crate::arith::RealOps;
use crate::bits;
use crate::spectral;
use crate::spline;
use crate::statistics;

verus! {

/// The finest resolution of a swept parameter (outlier-inclusion
/// thresholds, fluctuation scales): sweeps beyond this many steps clamp to
/// it, which bounds the engine's working memory on extreme inputs.
const MAX_SWEEP: usize = 0x1_0000;

/// Whether `s` holds an unbroken run of the symbol `t` of length `len`
/// starting at `start`.
pub open spec fn is_run(s: Seq<bool>, t: bool, start: int, len: int) -> bool {
    &&& 0 <= start
    &&& start + len <= s.len()
    &&& forall|k: int| start <= k < start + len ==> s[k] == t
}

/// The length of the longest unbroken run of the symbol `t`: no longer run
/// exists, and a run of exactly that length does (unless it is zero).
pub fn longest_stretch(s: &Vec<bool>, t: bool) -> (r: usize)
    ensures
        r <= s@.len(),
        forall|st: int, l: int| is_run(s@, t, st, l) ==> l <= r,
        r == 0 || exists|st: int| is_run(s@, t, st, r as int),
{
    let n: usize = s.len();
    let mut best: usize = 0;
    let mut cur: usize = 0;
    let mut i: usize = 0;
    while i < n
        invariant
            i <= n == s@.len(),
            cur <= i,
            best <= i,
            cur <= best,
            is_run(s@, t, i - cur, cur as int),
            cur < i ==> s@[i - cur - 1] != t,
            best == 0 || exists|st: int| is_run(s@, t, st, best as int),
            forall|st: int, l: int| 0 <= st && st + l <= i && is_run(s@, t, st, l) ==> l <= best,
        decreases n - i,
    {
        if s[i] == t {
            cur = cur + 1;
            if cur > best {
                best = cur;
            }
            proof {
                assert(is_run(s@, t, i + 1 - cur, cur as int));
                assert forall|st: int, l: int|
                    0 <= st && st + l <= i + 1 && is_run(s@, t, st, l) implies l <= best by {
                    if st + l == i + 1 && l > 0 {
                        if st < i + 1 - cur {
                            assert(s@[i - cur] != t);
                            assert(st <= i - cur < st + l);
                        } else {
                            assert(l <= cur);
                        }
                    }
                }
            }
        } else {
            proof {
                assert forall|st: int, l: int|
                    0 <= st && st + l <= i + 1 && is_run(s@, t, st, l) implies l <= best by {
                    if st + l == i + 1 && l > 0 {
                        assert(s@[i as int] != t);
                        assert(st <= i < st + l);
                    }
                }
            }
            cur = 0;
        }
        i = i + 1;
    }
    best
}

/// The running means of the series: entry `i` is the provider's mean of the
/// first `i + 1` samples.
fn prefix_means<O: RealOps>(ops: &O, a: &Vec<u64>) -> (r: Vec<u64>)
    ensures
        r@.len() == a@.len(),
{
    let n: usize = a.len();
    let mut acc: u64 = bits::ZERO_BITS;
    let mut out: Vec<u64> = Vec::new();
    for i in 0..n
        invariant
            n == a.len(),
            out@.len() == i,
    {
        acc = ops.add(acc, a[i]);
        out.push(ops.div(acc, ops.from_usize(i + 1)));
    }
    out
}

/// A vector of 1.0 patterns: the rectangular window.
fn ones(len: usize) -> (r: Vec<u64>)
    ensures
        r@.len() == len,
{
    let mut out: Vec<u64> = Vec::new();
    while out.len() < len
        invariant
            out.len() <= len,
        decreases len - out.len(),
    {
        out.push(bits::ONE_BITS);
    }
    out
}

/// The series with every sign bit flipped.
fn negated(a: &Vec<u64>) -> (r: Vec<u64>)
    ensures
        r@.len() == a@.len(),
{
    let n: usize = a.len();
    let mut out: Vec<u64> = Vec::new();
    for i in 0..n
        invariant
            n == a.len(),
            out@.len() == i,
    {
        out.push(bits::fneg(a[i]));
    }
    out
}

/// Outlier-inclusion timing: sweep an inclusion threshold upward from zero
/// in hundredth steps (over the negated series when `negate` is set), record
/// for each threshold the median relative position of the samples at or
/// above it, keep the thresholds that still include more than two samples,
/// and report the median of those medians.
pub fn dn_outlier_include_np_001_mdrmd<O: RealOps>(ops: &O, a: &Vec<u64>, negate: bool) -> (r: u64)
    ensures
        a@.len() < 2 || a@.len() > spectral::MAX_SERIES_LEN ==> r == bits::NAN_BITS,
{
    let n: usize = a.len();
    if n < 2 || n > spectral::MAX_SERIES_LEN {
        return bits::NAN_BITS;
    }
    let work: Vec<u64> = if negate {
        negated(a)
    } else {
        let mut c: Vec<u64> = Vec::new();
        for i in 0..n
            invariant
                n == a.len(),
                c@.len() == i,
        {
            c.push(a[i]);
        }
        c
    };
    let inc: u64 = ops.div(ops.from_usize(1), ops.from_usize(100));

    let mut max_val: u64 = work[0];
    for i in 0..n
        invariant
            n == work.len(),
    {
        if bits::tle(max_val, work[i]) {
            max_val = work[i];
        }
    }
    let mut nthr: usize = ops.to_usize(ops.div(max_val, inc));
    if nthr >= MAX_SWEEP {
        nthr = MAX_SWEEP;
    }
    nthr = nthr + 1;

    let half_n: u64 = ops.div(ops.from_usize(n), ops.from_usize(2));
    let mut msdti4: Vec<u64> = Vec::new();
    let mut counts: Vec<usize> = Vec::new();
    for j in 0..nthr
        invariant
            n == work.len() >= 2,
            msdti4@.len() == j,
            counts@.len() == j,
    {
        let thresh: u64 = ops.mul(ops.from_usize(j), inc);
        let mut positions: Vec<u64> = Vec::new();
        let mut count: usize = 0;
        for i in 0..n
            invariant
                n == work.len(),
                positions@.len() == count <= i,
        {
            if bits::fle(thresh, work[i]) {
                positions.push(ops.from_usize(i + 1));
                count = count + 1;
            }
        }
        if count >= 1 {
            let med_pos: u64 = statistics::median(ops, &positions);
            msdti4.push(ops.sub(ops.div(med_pos, half_n), bits::ONE_BITS));
        } else {
            msdti4.push(bits::NAN_BITS);
        }
        counts.push(count);
    }

    // Keep every threshold up to the last one that still includes more than
    // two samples.
    let mut keep: usize = 0;
    for j in 0..nthr
        invariant
            counts@.len() == nthr,
            keep <= nthr,
    {
        if counts[j] > 2 {
            keep = j + 1;
        }
    }
    if keep == 0 {
        keep = 1;
    }
    let mut kept: Vec<u64> = Vec::new();
    for j in 0..keep
        invariant
            msdti4@.len() == nthr,
            keep <= nthr,
            kept@.len() == j,
    {
        kept.push(msdti4[j]);
    }
    statistics::median(ops, &kept)
}

/// Histogram mode: bin the series into `n_bins` equal-width bins and report
/// the mean centre of the fullest bins.
pub fn dn_histogram_mode_n<O: RealOps>(ops: &O, a: &Vec<u64>, n_bins: usize) -> (r: u64)
    ensures
        a@.len() < 1 || n_bins < 1 || n_bins >= usize::MAX ==> r == bits::NAN_BITS,
{
    if a.len() < 1 || n_bins < 1 || n_bins >= usize::MAX {
        return bits::NAN_BITS;
    }
    let pair: (Vec<usize>, Vec<u64>) = statistics::histcounts(ops, a, n_bins);
    let (counts, edges): (Vec<usize>, Vec<u64>) = pair;
    let nb: usize = counts.len();

    let mut max_count: usize = 0;
    let mut num_maxs: usize = 0;
    let mut sum_maxs: u64 = bits::ZERO_BITS;
    let two: u64 = ops.from_usize(2);
    for i in 0..nb
        invariant
            nb == counts.len(),
            edges@.len() == nb + 1,
            num_maxs <= i,
    {
        let centre: u64 = ops.div(ops.add(edges[i], edges[i + 1]), two);
        if counts[i] > max_count {
            max_count = counts[i];
            num_maxs = 1;
            sum_maxs = centre;
        } else if counts[i] == max_count {
            num_maxs = num_maxs + 1;
            sum_maxs = ops.add(sum_maxs, centre);
        }
    }
    ops.div(sum_maxs, ops.from_usize(num_maxs))
}

/// Two-dimensional embedding distances: at the first-zero-crossing delay,
/// measure the distance between successive embedded points, fit an
/// exponential with the observed mean to their histogram, and report the
/// mean absolute difference between the observed and fitted densities.
pub fn co_embed2_dist_tau_d_expfit_meandiff<O: RealOps>(ops: &O, a: &Vec<u64>) -> (r: u64)
    ensures
        a@.len() < 3 || a@.len() > spectral::MAX_SERIES_LEN ==> r == bits::NAN_BITS,
{
    let n: usize = a.len();
    if n < 3 || n > spectral::MAX_SERIES_LEN {
        return bits::NAN_BITS;
    }
    let mut tau: usize = spectral::first_zero(ops, a, n);
    if tau > n / 10 {
        tau = n / 10;
    }
    if n < tau + 2 {
        return bits::NAN_BITS;
    }
    let m: usize = n - tau - 1;
    if m < 1 {
        return bits::NAN_BITS;
    }
    let mut d: Vec<u64> = Vec::new();
    for i in 0..m
        invariant
            n == a.len(),
            m == n - tau - 1,
            tau < n,
            d@.len() == i,
    {
        let dx: u64 = ops.sub(a[i + 1], a[i]);
        let dy: u64 = ops.sub(a[i + tau + 1], a[i + tau]);
        d.push(ops.sqrt(ops.add(ops.mul(dx, dx), ops.mul(dy, dy))));
    }
    let l: u64 = statistics::mean(ops, &d);

    let nbins: usize = statistics::num_bins_auto(ops, &d);
    if nbins < 1 || nbins >= usize::MAX {
        return bits::NAN_BITS;
    }
    let pair: (Vec<usize>, Vec<u64>) = statistics::histcounts(ops, &d, nbins);
    let (counts, edges): (Vec<usize>, Vec<u64>) = pair;
    let nb: usize = counts.len();

    let width: u64 = ops.sub(edges[1], edges[0]);
    let denom: u64 = ops.mul(ops.from_usize(m), width);
    let two: u64 = ops.from_usize(2);
    let mut acc: u64 = bits::ZERO_BITS;
    for i in 0..nb
        invariant
            nb == counts.len(),
            edges@.len() == nb + 1,
    {
        let observed: u64 = ops.div(ops.from_usize(counts[i]), denom);
        let centre: u64 = ops.div(ops.add(edges[i], edges[i + 1]), two);
        let fitted: u64 = ops.div(ops.exp(ops.div(bits::fneg(centre), l)), l);
        let diff: u64 = bits::fabs(ops.sub(observed, fitted));
        acc = ops.add(acc, diff);
    }
    ops.div(acc, ops.from_usize(nb))
}

/// The first crossing of the autocorrelation below `1/e`, linearly
/// interpolated between the bracketing lags; the series length when no
/// crossing occurs.
pub fn co_f1ecac<O: RealOps>(ops: &O, a: &Vec<u64>) -> (r: u64)
    ensures
        a@.len() < 2 || a@.len() > spectral::MAX_SERIES_LEN ==> r == bits::NAN_BITS,
{
    let n: usize = a.len();
    if n < 2 || n > spectral::MAX_SERIES_LEN {
        return bits::NAN_BITS;
    }
    let ac: Vec<u64> = spectral::autocorr(ops, a);
    let thresh: u64 = ops.div(bits::ONE_BITS, ops.exp(bits::ONE_BITS));
    let mut i: usize = 0;
    while i < n - 1
        invariant
            n == a.len(),
            n <= spectral::MAX_SERIES_LEN,
            ac@.len() >= 2 * n,
            n >= 2,
            i <= n - 1,
        decreases n - i,
    {
        if bits::flt(ac[i + 1], thresh) {
            let m: u64 = ops.sub(ac[i + 1], ac[i]);
            let dy: u64 = ops.sub(thresh, ac[i]);
            return ops.add(ops.from_usize(i), ops.div(dy, m));
        }
        i = i + 1;
    }
    ops.from_usize(n)
}

/// The first local minimum of the autocorrelation sequence, or the series
/// length when none occurs before it.
pub fn co_first_min_ac<O: RealOps>(ops: &O, a: &Vec<u64>) -> (r: u64)
    ensures
        a@.len() < 1 || a@.len() > spectral::MAX_SERIES_LEN ==> r == bits::NAN_BITS,
{
    let n: usize = a.len();
    if n < 1 || n > spectral::MAX_SERIES_LEN {
        return bits::NAN_BITS;
    }
    let ac: Vec<u64> = spectral::autocorr(ops, a);
    let mut i: usize = 1;
    while i + 1 < n
        invariant
            n == a.len(),
            n <= spectral::MAX_SERIES_LEN,
            ac@.len() >= 2 * n,
            1 <= i <= n,
        decreases n - i,
    {
        if bits::flt(ac[i], ac[i - 1]) && bits::flt(ac[i], ac[i + 1]) {
            return ops.from_usize(i);
        }
        i = i + 1;
    }
    ops.from_usize(n)
}

/// Automutual information of the series against its `tau`-lagged copy,
/// through an evenly binned two-dimensional histogram over the padded span
/// of the series.
pub fn co_histogram_ami_even_tau_bins<O: RealOps>(
    ops: &O,
    a: &Vec<u64>,
    tau: usize,
    n_bins: usize,
) -> (r: u64)
    ensures
        a@.len() < 2 || tau < 1 || tau >= a@.len() || n_bins < 1 || n_bins >= 0xFFFF ==> r
            == bits::NAN_BITS,
{
    let n: usize = a.len();
    if n < 2 || tau < 1 || tau >= n || n_bins < 1 || n_bins >= 0xFFFF {
        return bits::NAN_BITS;
    }
    let m: usize = n - tau;

    let mut y1: Vec<u64> = Vec::new();
    let mut y2: Vec<u64> = Vec::new();
    for i in 0..m
        invariant
            n == a.len(),
            m == n - tau,
            tau < n,
            y1.len() == i,
            y2.len() == i,
    {
        y1.push(a[i]);
        y2.push(a[i + tau]);
    }

    let mut min_val: u64 = a[0];
    let mut max_val: u64 = a[0];
    for i in 0..n
        invariant
            n == a.len(),
    {
        if bits::tle(max_val, a[i]) {
            max_val = a[i];
        }
        if bits::tle(a[i], min_val) {
            min_val = a[i];
        }
    }
    let pad: u64 = ops.div(ops.from_usize(1), ops.from_usize(10));
    let lo: u64 = ops.sub(min_val, pad);
    let hi: u64 = ops.add(max_val, pad);
    let edges: Vec<u64> = statistics::linspace(ops, lo, hi, n_bins + 1);

    let bins1: Vec<usize> = statistics::histbinassign(&y1, &edges);
    let bins2: Vec<usize> = statistics::histbinassign(&y2, &edges);

    // Joint counts over the labels, which the binning contract keeps below
    // the edge count.
    let side: usize = n_bins + 1;
    proof {
        assert(side * side <= 0xFFFF * 0xFFFF) by (nonlinear_arith)
            requires
                0 <= side <= 0xFFFF,
        ;
    }
    let cells: usize = side * side;
    let mut joint: Vec<usize> = Vec::new();
    while joint.len() < cells
        invariant
            joint.len() <= cells,
        decreases cells - joint.len(),
    {
        joint.push(0);
    }
    let mut i: usize = 0;
    while i < m
        invariant
            i <= m,
            bins1.len() == m,
            bins2.len() == m,
            y1.len() == m,
            y2.len() == m,
            edges@.len() == side,
            side == n_bins + 1,
            cells == side * side,
            joint.len() == cells,
            forall|k: int| 0 <= k < m ==> statistics::lt_bin_ok(
                y1@[k],
                edges@,
                #[trigger] bins1@[k] as int,
            ),
            forall|k: int| 0 <= k < m ==> statistics::lt_bin_ok(
                y2@[k],
                edges@,
                #[trigger] bins2@[k] as int,
            ),
        decreases m - i,
    {
        let b1: usize = bins1[i];
        let b2: usize = bins2[i];
        proof {
            assert(statistics::lt_bin_ok(y1@[i as int], edges@, b1 as int));
            assert(statistics::lt_bin_ok(y2@[i as int], edges@, b2 as int));
            spline::lemma_grid_index(b1 as int, b2 as int, side as int, side as int);
        }
        let cell: usize = b1 * side + b2;
        let c: usize = joint[cell];
        if c < m {
            joint[cell] = c + 1;
        }
        i = i + 1;
    }

    // Joint, row and column probabilities, summed the way the entropy will
    // read them.
    let total: u64 = ops.from_usize(m);
    let mut pmat: Vec<u64> = Vec::new();
    let mut c2: usize = 0;
    while c2 < cells
        invariant
            c2 <= cells,
            joint.len() == cells,
            pmat.len() == c2,
        decreases cells - c2,
    {
        pmat.push(ops.div(ops.from_usize(joint[c2]), total));
        c2 = c2 + 1;
    }
    let mut ami: u64 = bits::ZERO_BITS;
    for r in 0..side
        invariant
            side >= 1,
            cells == side * side,
            joint.len() == cells,
            pmat.len() == cells,
    {
        for c in 0..side
            invariant
                r < side,
                side >= 1,
                cells == side * side,
                joint.len() == cells,
                pmat.len() == cells,
        {
            proof {
                spline::lemma_grid_index(r as int, c as int, side as int, side as int);
            }
            let count: usize = joint[r * side + c];
            if count > 0 {
                let mut pi: u64 = bits::ZERO_BITS;
                let mut pj: u64 = bits::ZERO_BITS;
                for k in 0..side
                    invariant
                        r < side,
                        c < side,
                        cells == side * side,
                        pmat.len() == cells,
                {
                    proof {
                        spline::lemma_grid_index(r as int, k as int, side as int, side as int);
                        spline::lemma_grid_index(k as int, c as int, side as int, side as int);
                    }
                    pi = ops.add(pi, pmat[r * side + k]);
                    pj = ops.add(pj, pmat[k * side + c]);
                }
                let pij: u64 = pmat[r * side + c];
                let ratio: u64 = ops.div(pij, ops.mul(pi, pj));
                ami = ops.add(ami, ops.mul(pij, ops.ln(ratio)));
            }
        }
    }
    ami
}

/// The time-reversal asymmetry statistic: the mean cubed successive
/// difference.
pub fn co_trev_1_num<O: RealOps>(ops: &O, a: &Vec<u64>) -> (r: u64)
    ensures
        a@.len() < 2 ==> r == bits::NAN_BITS,
{
    let n: usize = a.len();
    if n < 2 {
        return bits::NAN_BITS;
    }
    let mut acc: u64 = bits::ZERO_BITS;
    let mut i: usize = 0;
    while i < n - 1
        invariant
            n == a.len(),
            n >= 2,
            i <= n - 1,
        decreases n - i,
    {
        let d: u64 = ops.sub(a[i + 1], a[i]);
        acc = ops.add(acc, ops.mul(ops.mul(d, d), d));
        i = i + 1;
    }
    ops.div(acc, ops.from_usize(n - 1))
}

/// The residuals of the mean-over-trailing-window forecast with the given
/// training length.
fn local_simple_residuals<O: RealOps>(ops: &O, a: &Vec<u64>, train: usize) -> (r: Vec<u64>)
    requires
        train >= 1,
        a.len() > train,
    ensures
        r@.len() == a@.len() - train,
{
    let n: usize = a.len();
    let m: usize = n - train;
    let trainf: u64 = ops.from_usize(train);
    let mut res: Vec<u64> = Vec::new();
    for i in 0..m
        invariant
            n == a.len(),
            m == n - train,
            train >= 1,
            res@.len() == i,
    {
        let mut acc: u64 = bits::ZERO_BITS;
        for j in 0..train
            invariant
                n == a.len(),
                i < m == n - train,
        {
            acc = ops.add(acc, a[i + j]);
        }
        let forecast: u64 = ops.div(acc, trainf);
        res.push(ops.sub(a[i + train], forecast));
    }
    res
}

/// Local forecasting by the trailing mean: the ratio between the first zero
/// crossings of the residuals' and the series' autocorrelations.
pub fn fc_local_simple_mean_tauresrat<O: RealOps>(ops: &O, a: &Vec<u64>, train: usize) -> (r: u64)
    ensures
        train < 1 || a@.len() <= train || a@.len() > spectral::MAX_SERIES_LEN ==> r
            == bits::NAN_BITS,
{
    let n: usize = a.len();
    if train < 1 || n <= train || n > spectral::MAX_SERIES_LEN {
        return bits::NAN_BITS;
    }
    let res: Vec<u64> = local_simple_residuals(ops, a, train);
    if res.len() < 1 {
        return bits::NAN_BITS;
    }
    let res_z: usize = spectral::first_zero(ops, &res, res.len());
    let y_z: usize = spectral::first_zero(ops, a, n);
    ops.div(ops.from_usize(res_z), ops.from_usize(y_z))
}

/// Local forecasting by the trailing mean: the standard deviation of the
/// forecast residuals.
pub fn fc_local_simple_mean_stderr<O: RealOps>(ops: &O, a: &Vec<u64>, train: usize) -> (r: u64)
    ensures
        train < 1 || a@.len() <= train ==> r == bits::NAN_BITS,
{
    let n: usize = a.len();
    if train < 1 || n <= train {
        return bits::NAN_BITS;
    }
    let res: Vec<u64> = local_simple_residuals(ops, a, train);
    if res.len() < 1 {
        return bits::NAN_BITS;
    }
    statistics::std_dev(ops, &res)
}

/// Automutual information under the Gaussian assumption, swept over lags up
/// to `tau_max` (capped at half the length): the lag of the first local
/// minimum of `-ln(1 - r²)/2`, or the sweep length when none occurs.
pub fn in_auto_mutual_info_stats_tau_gaussian_fmmi<O: RealOps>(
    ops: &O,
    a: &Vec<u64>,
    tau_max: usize,
) -> (r: u64)
    ensures
        a@.len() < 3 || tau_max < 1 || a@.len() > spectral::MAX_SERIES_LEN ==> r
            == bits::NAN_BITS,
{
    let n: usize = a.len();
    if n < 3 || tau_max < 1 || n > spectral::MAX_SERIES_LEN {
        return bits::NAN_BITS;
    }
    let mut tau: usize = tau_max;
    if tau > (n + 1) / 2 {
        tau = (n + 1) / 2;
    }
    let pm: Vec<u64> = prefix_means(ops, a);
    let one: u64 = bits::ONE_BITS;
    let neg_half: u64 = bits::fneg(ops.div(ops.from_usize(1), ops.from_usize(2)));
    let mut ami: Vec<u64> = Vec::new();
    let mut lag: usize = 1;
    while lag <= tau
        invariant
            n == a.len(),
            n >= 3,
            pm@.len() == n,
            tau <= (n + 1) / 2,
            tau < n,
            1 <= lag <= tau + 1,
            ami@.len() == lag - 1,
        decreases tau + 1 - lag,
    {
        let r: u64 = statistics::autocorr_lag(ops, a, &pm, lag);
        ami.push(ops.mul(neg_half, ops.ln(ops.sub(one, ops.mul(r, r)))));
        lag = lag + 1;
    }
    let mut i: usize = 1;
    while i + 1 < tau
        invariant
            a@.len() == n,
            3 <= n <= spectral::MAX_SERIES_LEN,
            tau_max >= 1,
            ami@.len() == tau,
            tau <= spectral::MAX_SERIES_LEN,
            1 <= i <= tau,
        decreases tau - i,
    {
        if bits::flt(ami[i], ami[i - 1]) && bits::flt(ami[i], ami[i + 1]) {
            return ops.from_usize(i + 1);
        }
        i = i + 1;
    }
    ops.from_usize(tau)
}

/// Heart-rate-variability style proportion: the share of successive
/// differences whose magnitude, scaled by a thousand, exceeds the threshold.
pub fn md_hrv_classic_pnn<O: RealOps>(ops: &O, a: &Vec<u64>, pnn: usize) -> (r: u64)
    ensures
        a@.len() < 2 ==> r == bits::NAN_BITS,
{
    let n: usize = a.len();
    if n < 2 {
        return bits::NAN_BITS;
    }
    let d: Vec<u64> = statistics::diff(ops, a);
    let pnnf: u64 = ops.from_usize(pnn);
    let thousand: u64 = ops.from_usize(1000);
    let mut count: usize = 0;
    let mut i: usize = 0;
    while i < n - 1
        invariant
            n == a.len(),
            d@.len() == n,
            n >= 2,
            i <= n - 1,
            count <= i,
        decreases n - 1 - i,
    {
        let scaled: u64 = ops.mul(bits::fabs(d[i]), thousand);
        if bits::flt(pnnf, scaled) {
            count = count + 1;
        }
        i = i + 1;
    }
    ops.div(ops.from_usize(count), ops.from_usize(n - 1))
}

/// Binary symbolic dynamics of the differenced series: the longest stretch
/// of successive decreases.
pub fn sb_binary_stats_diff_longstretch0<O: RealOps>(ops: &O, a: &Vec<u64>) -> (r: u64)
    ensures
        a@.len() < 2 ==> r == bits::NAN_BITS,
{
    let n: usize = a.len();
    if n < 2 {
        return bits::NAN_BITS;
    }
    let mut sym: Vec<bool> = Vec::new();
    let mut i: usize = 0;
    while i < n - 1
        invariant
            n == a.len(),
            n >= 2,
            i <= n - 1,
            sym@.len() == i,
        decreases n - 1 - i,
    {
        let d: u64 = ops.sub(a[i + 1], a[i]);
        sym.push(bits::fle(bits::ZERO_BITS, d));
        i = i + 1;
    }
    ops.from_usize(longest_stretch(&sym, false))
}

/// Binary symbolic dynamics around the mean: the longest stretch of samples
/// strictly above it.
pub fn sb_binary_stats_mean_longstretch1<O: RealOps>(ops: &O, a: &Vec<u64>) -> (r: u64)
    ensures
        a@.len() < 1 ==> r == bits::NAN_BITS,
{
    let n: usize = a.len();
    if n < 1 {
        return bits::NAN_BITS;
    }
    let m: u64 = statistics::mean(ops, a);
    let mut sym: Vec<bool> = Vec::new();
    for i in 0..n
        invariant
            n == a.len(),
            sym@.len() == i,
    {
        let d: u64 = ops.sub(a[i], m);
        sym.push(!bits::fle(d, bits::ZERO_BITS));
    }
    ops.from_usize(longest_stretch(&sym, true))
}

/// Motif statistics over three quantile symbols: the entropy of the joint
/// distribution of successive symbol pairs.
pub fn sb_motif_three_quantile_hh<O: RealOps>(ops: &O, a: &Vec<u64>) -> (r: u64)
    ensures
        a@.len() < 2 ==> r == bits::NAN_BITS,
{
    let n: usize = a.len();
    if n < 2 {
        return bits::NAN_BITS;
    }
    let labels: Vec<usize> = statistics::coarsegrain(ops, a, 3);
    let mut counts: Vec<usize> = Vec::new();
    while counts.len() < 16
        invariant
            counts.len() <= 16,
        decreases 16 - counts.len(),
    {
        counts.push(0);
    }
    let mut i: usize = 0;
    while i < n - 1
        invariant
            n == a.len(),
            n >= 2,
            i <= n - 1,
            labels@.len() == n,
            counts.len() == 16,
            forall|j: int| 0 <= j < labels@.len() ==> #[trigger] labels@[j] <= 3,
        decreases n - 1 - i,
    {
        let l1: usize = labels[i];
        let l2: usize = labels[i + 1];
        let cell: usize = l1 * 4 + l2;
        let c: usize = counts[cell];
        if c < n {
            counts[cell] = c + 1;
        }
        i = i + 1;
    }
    let total: u64 = ops.from_usize(n - 1);
    let mut probs: Vec<u64> = Vec::new();
    let mut k: usize = 0;
    while k < 16
        invariant
            k <= 16,
            counts.len() == 16,
            probs@.len() == k,
        decreases 16 - k,
    {
        probs.push(ops.div(ops.from_usize(counts[k]), total));
        k = k + 1;
    }
    statistics::f_entropy(ops, &probs)
}

/// Which per-window detrending statistic a fluctuation analysis sweeps:
/// the squared range of the linear-fit residuals, or their mean square.
#[derive(Clone, Copy, Debug)]
pub enum FluctKind {
    RsRangeFit,
    Dfa,
}

/// Scale-dependent fluctuation analysis: integrate the zero-meaned,
/// `lag`-decimated series, detrend it linearly over windows at fifty
/// log-spaced scales, fit a two-regime log-log model to the fluctuation
/// curve, and report the proportion of scales that the first regime
/// explains best.
pub fn sc_fluct_anal_2_50_1_logi_prop_r1<O: RealOps>(
    ops: &O,
    a: &Vec<u64>,
    lag: usize,
    kind: FluctKind,
) -> (r: u64)
    ensures
        lag < 1 || lag > a@.len() as int / 2 || a@.len() > spectral::MAX_SERIES_LEN ==> r
            == bits::NAN_BITS,
{
    let n: usize = a.len();
    if lag < 1 || lag > n / 2 || n > spectral::MAX_SERIES_LEN {
        return bits::NAN_BITS;
    }
    let size_cs: usize = n / lag;

    // Integrate the zero-meaned decimated series.
    let mut dec: Vec<u64> = Vec::new();
    let mut i: usize = 0;
    while i < size_cs
        invariant
            n == a.len(),
            lag >= 1,
            size_cs == n as int / lag as int,
            i <= size_cs,
            dec@.len() == i,
        decreases size_cs - i,
    {
        proof {
            let q = n as int / lag as int;
            assert(i * lag < q * lag) by (nonlinear_arith)
                requires
                    0 <= i < q,
                    lag >= 1,
            ;
            vstd::arithmetic::div_mod::lemma_remainder_lower(n as int, lag as int);
            assert(q * lag <= n);
        }
        dec.push(a[i * lag]);
        i = i + 1;
    }
    if dec.len() < 1 {
        return bits::NAN_BITS;
    }
    let dm: u64 = statistics::mean(ops, &dec);
    let mut ycs: Vec<u64> = Vec::new();
    let mut acc: u64 = bits::ZERO_BITS;
    for i2 in 0..size_cs
        invariant
            dec@.len() == size_cs,
            ycs@.len() == i2,
    {
        acc = ops.add(acc, ops.sub(dec[i2], dm));
        ycs.push(acc);
    }

    // Fifty log-spaced scales from five to half the series length,
    // deduplicated.
    let five: u64 = ops.from_usize(5);
    let lin_low: u64 = ops.ln(five);
    let lin_high: u64 = ops.ln(ops.from_usize(n / 2));
    let step: u64 = ops.div(ops.sub(lin_high, lin_low), ops.from_usize(49));
    let half: u64 = ops.div(ops.from_usize(1), ops.from_usize(2));
    let mut taus: Vec<usize> = Vec::new();
    let mut t: usize = 0;
    while t < 50
        invariant
            t <= 50,
            taus@.len() <= t,
            forall|k: int| 0 <= k < taus@.len() ==> 1 <= #[trigger] taus@[k] <= MAX_SWEEP,
        decreases 50 - t,
    {
        let raw: u64 = ops.exp(ops.add(lin_low, ops.mul(ops.from_usize(t), step)));
        let mut tau: usize = ops.to_usize(ops.add(raw, half));
        if tau < 1 {
            tau = 1;
        }
        if tau > MAX_SWEEP {
            tau = MAX_SWEEP;
        }
        let keep: bool = if taus.len() == 0 {
            true
        } else {
            taus[taus.len() - 1] < tau
        };
        if keep {
            taus.push(tau);
        }
        t = t + 1;
    }
    let ntau: usize = taus.len();
    if ntau < 12 {
        return bits::NAN_BITS;
    }

    // The fluctuation curve in log-log coordinates.
    let mut logtt: Vec<u64> = Vec::new();
    let mut logff: Vec<u64> = Vec::new();
    let mut ti: usize = 0;
    while ti < ntau
        invariant
            ntau == taus.len(),
            ycs@.len() == size_cs,
            forall|k: int| 0 <= k < taus@.len() ==> 1 <= #[trigger] taus@[k] <= MAX_SWEEP,
            logtt@.len() == ti,
            logff@.len() == ti,
            ti <= ntau,
        decreases ntau - ti,
    {
        let tau: usize = taus[ti];
        let n_buffer: usize = size_cs / tau;
        let mut xreg: Vec<u64> = Vec::new();
        let mut j: usize = 0;
        while j < tau
            invariant
                j <= tau,
                xreg@.len() == j,
            decreases tau - j,
        {
            xreg.push(ops.from_usize(j + 1));
            j = j + 1;
        }
        let mut facc: u64 = bits::ZERO_BITS;
        let mut buf: usize = 0;
        while buf < n_buffer
            invariant
                tau >= 1,
                n_buffer == size_cs as int / tau as int,
                ycs@.len() == size_cs,
                xreg@.len() == tau,
                buf <= n_buffer,
            decreases n_buffer - buf,
        {
            proof {
                let q = size_cs as int / tau as int;
                vstd::arithmetic::div_mod::lemma_remainder_lower(
                    size_cs as int,
                    tau as int,
                );
                assert(q * tau <= size_cs);
                assert(buf * tau + tau <= q * tau) by (nonlinear_arith)
                    requires
                        0 <= buf < q,
                        tau >= 1,
                ;
            }
            let base: usize = buf * tau;
            let mut seg: Vec<u64> = Vec::new();
            let mut j2: usize = 0;
            while j2 < tau
                invariant
                    base + tau <= size_cs,
                    ycs@.len() == size_cs,
                    j2 <= tau,
                    seg@.len() == j2,
                decreases tau - j2,
            {
                seg.push(ycs[base + j2]);
                j2 = j2 + 1;
            }
            let fit: (u64, u64) = statistics::linreg(ops, tau, &xreg, &seg);
            let (slope, icept): (u64, u64) = fit;
            match kind {
                FluctKind::RsRangeFit => {
                    let mut maxr: u64 = bits::NAN_BITS;
                    let mut minr: u64 = bits::NAN_BITS;
                    let mut j3: usize = 0;
                    while j3 < tau
                        invariant
                            xreg@.len() == tau == seg@.len(),
                            j3 <= tau,
                        decreases tau - j3,
                    {
                        let resid: u64 = ops.sub(
                            seg[j3],
                            ops.add(ops.mul(slope, xreg[j3]), icept),
                        );
                        if j3 == 0 {
                            maxr = resid;
                            minr = resid;
                        } else {
                            if bits::tle(maxr, resid) {
                                maxr = resid;
                            }
                            if bits::tle(resid, minr) {
                                minr = resid;
                            }
                        }
                        j3 = j3 + 1;
                    }
                    let range: u64 = ops.sub(maxr, minr);
                    facc = ops.add(facc, ops.mul(range, range));
                },
                FluctKind::Dfa => {
                    let mut s: u64 = bits::ZERO_BITS;
                    let mut j3: usize = 0;
                    while j3 < tau
                        invariant
                            xreg@.len() == tau == seg@.len(),
                            j3 <= tau,
                        decreases tau - j3,
                    {
                        let resid: u64 = ops.sub(
                            seg[j3],
                            ops.add(ops.mul(slope, xreg[j3]), icept),
                        );
                        s = ops.add(s, ops.mul(resid, resid));
                        j3 = j3 + 1;
                    }
                    facc = ops.add(facc, ops.div(s, ops.from_usize(tau)));
                },
            }
            buf = buf + 1;
        }
        let fluct: u64 = ops.sqrt(ops.div(facc, ops.from_usize(n_buffer)));
        logtt.push(ops.ln(ops.from_usize(tau)));
        logff.push(ops.ln(fluct));
        ti = ti + 1;
    }

    // Two-regime log-linear fit: slide the breakpoint and keep the first
    // split with the least total squared error.
    let min_points: usize = 6;
    let nsserr: usize = ntau - 11;
    let mut sserr: Vec<u64> = Vec::new();
    let mut s2: usize = 0;
    while s2 < nsserr
        invariant
            12 <= ntau <= 50,
            min_points == 6,
            nsserr == ntau - 11,
            logtt.len() == ntau,
            logff.len() == ntau,
            s2 <= nsserr,
            sserr@.len() == s2,
        decreases nsserr - s2,
    {
        let split: usize = s2 + min_points;
        let fit1: (u64, u64) = statistics::linreg(ops, split, &logtt, &logff);
        let (m1, b1): (u64, u64) = fit1;
        let mut e1: u64 = bits::ZERO_BITS;
        let mut j: usize = 0;
        while j < split
            invariant
                split <= ntau,
                logtt@.len() == ntau,
                logff@.len() == ntau,
                j <= split,
            decreases split - j,
        {
            let d: u64 = ops.sub(logff[j], ops.add(ops.mul(m1, logtt[j]), b1));
            e1 = ops.add(e1, ops.mul(d, d));
            j = j + 1;
        }
        let start: usize = split - 1;
        let count: usize = ntau - start;
        let mut t2: Vec<u64> = Vec::new();
        let mut f2: Vec<u64> = Vec::new();
        let mut j2: usize = 0;
        while j2 < count
            invariant
                start + count == ntau,
                logtt@.len() == ntau,
                logff@.len() == ntau,
                j2 <= count,
                t2@.len() == j2,
                f2@.len() == j2,
            decreases count - j2,
        {
            t2.push(logtt[start + j2]);
            f2.push(logff[start + j2]);
            j2 = j2 + 1;
        }
        let fit2: (u64, u64) = statistics::linreg(ops, count, &t2, &f2);
        let (m2, b2): (u64, u64) = fit2;
        let mut e2: u64 = bits::ZERO_BITS;
        let mut j3: usize = 0;
        while j3 < count
            invariant
                t2@.len() == count,
                f2@.len() == count,
                j3 <= count,
            decreases count - j3,
        {
            let d: u64 = ops.sub(f2[j3], ops.add(ops.mul(m2, t2[j3]), b2));
            e2 = ops.add(e2, ops.mul(d, d));
            j3 = j3 + 1;
        }
        sserr.push(ops.add(e1, e2));
        s2 = s2 + 1;
    }

    let mut best: u64 = sserr[0];
    let mut besti: usize = 0;
    let mut k2: usize = 1;
    while k2 < nsserr
        invariant
            sserr@.len() == nsserr >= 1,
            besti < nsserr,
            k2 <= nsserr,
        decreases nsserr - k2,
    {
        if bits::flt(sserr[k2], best) {
            best = sserr[k2];
            besti = k2;
        }
        k2 = k2 + 1;
    }
    ops.div(ops.from_usize(besti + min_points), ops.from_usize(ntau))
}

/// Which scalar a Welch spectrum is reduced to: the power in the lowest
/// fifth of the frequencies, or the frequency that splits the cumulative
/// power in half.
#[derive(Clone, Copy, Debug)]
pub enum SpectralSummary {
    AreaFifth,
    Centroid,
}

/// Spectral summaries of the rectangular-window Welch estimate at unit
/// sampling rate.
pub fn sp_summaries_welch_rect<O: RealOps>(ops: &O, a: &Vec<u64>, what: SpectralSummary) -> (r: u64)
    ensures
        a@.len() < 2 || a@.len() > spectral::MAX_SERIES_LEN ==> r == bits::NAN_BITS,
{
    let n: usize = a.len();
    if n < 2 || n > spectral::MAX_SERIES_LEN {
        return bits::NAN_BITS;
    }
    let window: Vec<u64> = ones(n);
    let spec_pair: (Vec<u64>, Vec<u64>) = spectral::welch(ops, a, bits::ONE_BITS, &window);
    let (freq, pxx): (Vec<u64>, Vec<u64>) = spec_pair;
    let nw: usize = pxx.len();
    if nw < 2 {
        return bits::NAN_BITS;
    }
    match what {
        SpectralSummary::Centroid => {
            let mut cs: Vec<u64> = Vec::new();
            let mut acc: u64 = bits::ZERO_BITS;
            for i in 0..nw
                invariant
                    pxx@.len() == nw,
                    cs@.len() == i,
            {
                acc = ops.add(acc, pxx[i]);
                cs.push(acc);
            }
            let threshold: u64 = ops.div(cs[nw - 1], ops.from_usize(2));
            let mut i: usize = 0;
            while i < nw
                invariant
                    a@.len() == n,
                    2 <= n <= spectral::MAX_SERIES_LEN,
                    cs@.len() == nw == freq@.len(),
                    i <= nw,
                decreases nw - i,
            {
                if bits::flt(threshold, cs[i]) {
                    return freq[i];
                }
                i = i + 1;
            }
            bits::NAN_BITS
        },
        SpectralSummary::AreaFifth => {
            let limit: usize = nw / 5;
            let df: u64 = ops.sub(freq[1], freq[0]);
            let mut area: u64 = bits::ZERO_BITS;
            let mut i: usize = 0;
            while i < limit
                invariant
                    limit <= nw == pxx@.len(),
                    i <= limit,
                decreases limit - i,
            {
                area = ops.add(area, pxx[i]);
                i = i + 1;
            }
            ops.mul(area, df)
        },
    }
}

/// Symbolic transition structure at the first-zero-crossing delay: the
/// series is downsampled at that delay, coarse-grained into three quantile
/// symbols, and the trace of the covariance matrix of the transition-count
/// matrix is reported.
pub fn sb_transition_matrix_3ac_sumdiagcov<O: RealOps>(ops: &O, a: &Vec<u64>) -> (r: u64)
    ensures
        a@.len() < 2 || a@.len() > spectral::MAX_SERIES_LEN ==> r == bits::NAN_BITS,
{
    let n: usize = a.len();
    if n < 2 || n > spectral::MAX_SERIES_LEN {
        return bits::NAN_BITS;
    }
    let mut tau: usize = spectral::first_zero(ops, a, n);
    if tau < 1 {
        tau = 1;
    }
    let ndown: usize = (n - 1) / tau + 1;
    let mut yd: Vec<u64> = Vec::new();
    let mut i: usize = 0;
    while i < ndown
        invariant
            n == a.len(),
            n >= 2,
            tau >= 1,
            ndown == (n - 1) as int / tau as int + 1,
            i <= ndown,
            yd@.len() == i,
        decreases ndown - i,
    {
        proof {
            let q = (n - 1) as int / tau as int;
            assert(i * tau <= q * tau) by (nonlinear_arith)
                requires
                    0 <= i <= q,
                    tau >= 1,
            ;
            vstd::arithmetic::div_mod::lemma_remainder_lower((n - 1) as int, tau as int);
            assert(q * tau <= n - 1);
        }
        yd.push(a[i * tau]);
        i = i + 1;
    }
    if yd.len() < 2 {
        return bits::NAN_BITS;
    }
    let labels: Vec<usize> = statistics::coarsegrain(ops, &yd, 3);

    let mut counts: Vec<usize> = Vec::new();
    while counts.len() < 9
        invariant
            counts.len() <= 9,
        decreases 9 - counts.len(),
    {
        counts.push(0);
    }
    let nd: usize = yd.len();
    let mut k: usize = 0;
    while k < nd - 1
        invariant
            nd >= 2,
            labels@.len() == nd,
            counts.len() == 9,
            k <= nd - 1,
            forall|j: int| 0 <= j < labels@.len() ==> #[trigger] labels@[j] <= 3,
        decreases nd - 1 - k,
    {
        let l1: usize = labels[k];
        let l2: usize = labels[k + 1];
        if l1 >= 1 && l2 >= 1 {
            let cell: usize = (l1 - 1) * 3 + (l2 - 1);
            let c: usize = counts[cell];
            if c < nd {
                counts[cell] = c + 1;
            }
        }
        k = k + 1;
    }
    let denom: u64 = ops.from_usize(nd - 1);
    let mut tmat: Vec<Vec<u64>> = Vec::new();
    let mut r: usize = 0;
    while r < 3
        invariant
            counts.len() == 9,
            r <= 3,
            tmat@.len() == r,
            forall|j: int| 0 <= j < tmat@.len() ==> (#[trigger] tmat@[j])@.len() == 3,
        decreases 3 - r,
    {
        let mut row: Vec<u64> = Vec::new();
        let mut c: usize = 0;
        while c < 3
            invariant
                r < 3,
                counts.len() == 9,
                c <= 3,
                row@.len() == c,
            decreases 3 - c,
        {
            row.push(ops.div(ops.from_usize(counts[r * 3 + c]), denom));
            c = c + 1;
        }
        tmat.push(row);
        r = r + 1;
    }
    let cov: Vec<Vec<u64>> = statistics::covariance_matrix(ops, &tmat);
    let r0: &Vec<u64> = &cov[0];
    let r1: &Vec<u64> = &cov[1];
    let r2: &Vec<u64> = &cov[2];
    ops.add(ops.add(r0[0], r1[1]), r2[2])
}

/// Periodicity detection: detrend by the two-piece cubic spline, sweep the
/// lagged correlation of the residual up to a third of the length, and
/// report the first peak that rises at least a hundredth above its
/// preceding trough and is positive; zero when none does.
pub fn pd_periodicity_wang_th0_01<O: RealOps>(ops: &O, a: &Vec<u64>) -> (r: u64)
    ensures
        a@.len() < 4 || a@.len() > spectral::MAX_SERIES_LEN ==> r == bits::NAN_BITS,
{
    let n: usize = a.len();
    if n < 4 || n > spectral::MAX_SERIES_LEN {
        return bits::NAN_BITS;
    }
    let spl: Vec<u64> = spline::splinefit(ops, a);
    let mut ysub: Vec<u64> = Vec::new();
    for i in 0..n
        invariant
            n == a.len(),
            spl@.len() == n,
            ysub@.len() == i,
    {
        ysub.push(ops.sub(a[i], spl[i]));
    }
    let acmax: usize = (n + 2) / 3;
    let pm: Vec<u64> = prefix_means(ops, &ysub);
    let mut acf: Vec<u64> = Vec::new();
    let mut lag: usize = 1;
    while lag <= acmax
        invariant
            n >= 4,
            acmax == (n + 2) as int / 3,
            acmax < n,
            ysub@.len() == n,
            pm@.len() == n,
            1 <= lag <= acmax + 1,
            acf@.len() == lag - 1,
        decreases acmax + 1 - lag,
    {
        acf.push(statistics::autocorr_lag(ops, &ysub, &pm, lag));
        lag = lag + 1;
    }
    let th: u64 = ops.div(ops.from_usize(1), ops.from_usize(100));
    let mut trough_val: u64 = bits::NAN_BITS;
    let mut have_trough: bool = false;
    let mut i: usize = 1;
    while i + 1 < acmax
        invariant
            a@.len() == n,
            4 <= n <= spectral::MAX_SERIES_LEN,
            acf@.len() == acmax,
            acmax < n,
            1 <= i <= acmax,
        decreases acmax - i,
    {
        if bits::flt(acf[i], acf[i - 1]) && bits::flt(acf[i], acf[i + 1]) {
            trough_val = acf[i];
            have_trough = true;
        } else if have_trough && bits::flt(acf[i - 1], acf[i]) && bits::flt(acf[i + 1], acf[i]) {
            let rise: u64 = ops.sub(acf[i], trough_val);
            if bits::fle(th, rise) && bits::flt(bits::ZERO_BITS, acf[i]) {
                return ops.from_usize(i + 1);
            }
        }
        i = i + 1;
    }
    bits::ZERO_BITS
}

} // verus!
