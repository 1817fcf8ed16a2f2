//! The shared numerical toolkit: moments, the median and quantiles,
//! histogram binning and counting, coarse-graining into symbolic labels,
//! lagged correlation, and small vector statistics.
//!
//! Every function here is total over the inputs its `requires` admits and
//! never panics. Counting, ordering and label bounds are proved exactly;
//! rounded values go through the caller's [`RealOps`] provider and are as
//! good as the provider.

use vstd::prelude::*;
use crate::arith::RealOps;
use crate::bits;
use crate::sort;

verus! {

/// The sum of a sequence of counters, as an unbounded integer.
pub open spec fn sum_counts(s: Seq<usize>) -> int
    decreases s.len(),
{
    if s.len() == 0 {
        0
    } else {
        sum_counts(s.drop_last()) + s.last()
    }
}

/// Replacing one counter changes the sum by the difference.
proof fn lemma_sum_update(s: Seq<usize>, j: int, v: usize)
    requires
        0 <= j < s.len(),
    ensures
        sum_counts(s.update(j, v)) == sum_counts(s) - s[j] + v,
    decreases s.len(),
{
    if j == s.len() - 1 {
        assert(s.update(j, v).drop_last() =~= s.drop_last());
    } else {
        assert(s.update(j, v).drop_last() =~= s.drop_last().update(j, v));
        lemma_sum_update(s.drop_last(), j, v);
    }
}

/// Every counter is bounded by the sum of all of them.
proof fn lemma_sum_element(s: Seq<usize>, j: int)
    requires
        0 <= j < s.len(),
    ensures
        s[j] <= sum_counts(s),
    decreases s.len(),
{
    lemma_sum_nonneg(s.drop_last());
    if j < s.len() - 1 {
        lemma_sum_element(s.drop_last(), j);
    }
}

/// A sum of counters is never negative.
proof fn lemma_sum_nonneg(s: Seq<usize>)
    ensures
        sum_counts(s) >= 0,
    decreases s.len(),
{
    if s.len() > 0 {
        lemma_sum_nonneg(s.drop_last());
    }
}

/// Centres and scales a series to zero mean and unit sample variance (the
/// variance uses the `n - 1` denominator); undefined entries (a constant
/// series) come back as the provider's division of zero by zero.
pub fn zscore<O: RealOps>(ops: &O, a: &Vec<u64>) -> (r: Vec<u64>)
    requires
        a.len() >= 1,
    ensures
        r@.len() == a@.len(),
{
    let n: usize = a.len();
    let m: u64 = mean(ops, a);
    let mut acc: u64 = bits::ZERO_BITS;
    for i in 0..n
        invariant
            n == a.len(),
    {
        let d: u64 = ops.sub(a[i], m);
        acc = ops.add(acc, ops.mul(d, d));
    }
    let variance: u64 = ops.div(acc, ops.from_usize(n - 1));
    let sd: u64 = ops.sqrt(variance);
    let mut r: Vec<u64> = Vec::new();
    for i in 0..n
        invariant
            n == a.len(),
            r@.len() == i,
    {
        r.push(ops.div(ops.sub(a[i], m), sd));
    }
    r
}

/// Whether every sample equals the first one numerically (so a series of
/// NaN patterns is not constant, and a series mixing the two zeros is).
pub fn is_constant(a: &Vec<u64>) -> (r: bool)
    ensures
        r == (forall|i: int| 0 <= i < a@.len() ==> bits::spec_feq(a@[i], a@[0])),
{
    let n: usize = a.len();
    let mut i: usize = 0;
    while i < n
        invariant
            i <= n == a@.len(),
            forall|k: int| 0 <= k < i ==> bits::spec_feq(a@[k], a@[0]),
        decreases n - i,
    {
        if !bits::feq(a[i], a[0]) {
            return false;
        }
        i = i + 1;
    }
    true
}

/// The arithmetic mean: the rounded sum over the length.
pub fn mean<O: RealOps>(ops: &O, a: &Vec<u64>) -> u64 {
    let n: usize = a.len();
    let mut acc: u64 = bits::ZERO_BITS;
    for i in 0..n
        invariant
            n == a.len(),
    {
        acc = ops.add(acc, a[i]);
    }
    ops.div(acc, ops.from_usize(n))
}

/// The median: the middle order statistic of the sorted series for odd
/// length — that case is pinned down exactly — and the provider's mean of
/// the two middle order statistics for even length.
pub fn median<O: RealOps>(ops: &O, a: &Vec<u64>) -> (r: u64)
    requires
        a.len() >= 1,
    ensures
        a@.len() % 2 == 1 ==> r == sort::sorted_version(a@)[a@.len() as int / 2],
{
    let s: Vec<u64> = sort::sort_samples(a);
    let n: usize = s.len();
    if n % 2 == 0 {
        ops.div(ops.add(s[n / 2], s[n / 2 - 1]), ops.from_usize(2))
    } else {
        s[n / 2]
    }
}

/// The sample standard deviation (`n - 1` denominator), through the
/// provider's square root.
pub fn std_dev<O: RealOps>(ops: &O, a: &Vec<u64>) -> (r: u64)
    requires
        a.len() >= 1,
{
    let n: usize = a.len();
    let m: u64 = mean(ops, a);
    let mut acc: u64 = bits::ZERO_BITS;
    for i in 0..n
        invariant
            n == a.len(),
    {
        let d: u64 = ops.sub(a[i], m);
        acc = ops.add(acc, ops.mul(d, d));
    }
    ops.sqrt(ops.div(acc, ops.from_usize(n - 1)))
}

/// The ordinary least-squares slope of the series against the positions
/// `1..=n`, by the closed-form covariance over position-variance ratio.
/// A degenerate position variance (length below two) yields a non-finite
/// pattern for the dispatcher to sanitize.
pub fn slope<O: RealOps>(ops: &O, a: &Vec<u64>) -> u64 {
    let n: usize = a.len();
    let nf: u64 = ops.from_usize(n);
    let mut sx: u64 = bits::ZERO_BITS;
    let mut sy: u64 = bits::ZERO_BITS;
    let mut sxy: u64 = bits::ZERO_BITS;
    let mut sy2: u64 = bits::ZERO_BITS;
    for i in 0..n
        invariant
            n == a.len(),
    {
        let pos: u64 = ops.from_usize(i + 1);
        sx = ops.add(sx, a[i]);
        sy = ops.add(sy, pos);
        sxy = ops.add(sxy, ops.mul(a[i], pos));
        sy2 = ops.add(sy2, ops.mul(pos, pos));
    }
    let x_mean: u64 = ops.div(sx, nf);
    let y_mean: u64 = ops.div(sy, nf);
    let xy_mean: u64 = ops.div(sxy, nf);
    let y2_mean: u64 = ops.div(sy2, nf);
    ops.div(
        ops.sub(xy_mean, ops.mul(x_mean, y_mean)),
        ops.sub(y2_mean, ops.mul(y_mean, y_mean)),
    )
}

/// The successive differences, padded to the input's length: entry `i`
/// holds `a[i+1] - a[i]` and the final entry stays zero, so consumers index
/// the same positions as in the series itself.
pub fn diff<O: RealOps>(ops: &O, a: &Vec<u64>) -> (r: Vec<u64>)
    ensures
        r@.len() == a@.len(),
        a@.len() >= 1 ==> r@[a@.len() - 1] == bits::ZERO_BITS,
{
    let n: usize = a.len();
    let mut out: Vec<u64> = Vec::new();
    for i in 0..n
        invariant
            out@.len() == i,
            forall|k: int| 0 <= k < i ==> #[trigger] out@[k] == bits::ZERO_BITS,
    {
        out.push(bits::ZERO_BITS);
    }
    let mut i: usize = 1;
    while i < n
        invariant
            n == a.len(),
            out@.len() == n,
            1 <= i,
            n >= 1 ==> out@[n - 1] == bits::ZERO_BITS,
        decreases n - i,
    {
        let d: u64 = ops.sub(a[i], a[i - 1]);
        out[i - 1] = d;
        i = i + 1;
    }
    out
}

/// `num_groups` evenly spaced values from `start` towards `end` (the usual
/// fencepost rule: the step is the span over `num_groups - 1`).
pub fn linspace<O: RealOps>(ops: &O, start: u64, end: u64, num_groups: usize) -> (r: Vec<u64>)
    requires
        num_groups >= 1,
    ensures
        r@.len() == num_groups,
        r@[0] == start,
{
    let step: u64 = ops.div(ops.sub(end, start), ops.from_usize(num_groups - 1));
    let mut cur: u64 = start;
    let mut out: Vec<u64> = Vec::new();
    for i in 0..num_groups
        invariant
            out@.len() == i,
            i == 0 ==> cur == start,
            i >= 1 ==> out@[0] == start,
    {
        out.push(cur);
        cur = ops.add(cur, step);
    }
    out
}

/// The `q`-quantile: the sorted series is interpolated linearly at position
/// `n·q - 1/2`, with the extremes returned whenever `q` lies within half a
/// sample's weight of 0 or 1, and the exact order statistic whenever the
/// position is integral.
pub fn quantile<O: RealOps>(ops: &O, a: &Vec<u64>, q: u64) -> (r: u64)
    requires
        a.len() >= 1,
    ensures
        a@.len() == 1 ==> r == sort::sorted_version(a@)[0],
{
    let s: Vec<u64> = sort::sort_samples(a);
    let n: usize = s.len();
    let one: u64 = ops.from_usize(1);
    let half: u64 = ops.div(one, ops.from_usize(2));
    let guard: u64 = ops.div(half, ops.from_usize(n));
    if bits::flt(q, guard) {
        return s[0];
    }
    if bits::flt(ops.sub(one, guard), q) {
        return s[n - 1];
    }
    let pos: u64 = ops.sub(ops.mul(ops.from_usize(n), q), half);
    let mut lo: usize = ops.to_usize(ops.floor(pos));
    let mut hi: usize = ops.to_usize(ops.ceil(pos));
    if lo >= n {
        lo = n - 1;
    }
    if hi >= n {
        hi = n - 1;
    }
    if hi <= lo {
        return s[lo];
    }
    let frac: u64 = ops.sub(pos, ops.from_usize(lo));
    let rise: u64 = ops.sub(s[hi], s[lo]);
    ops.add(s[lo], ops.div(ops.mul(frac, rise), ops.from_usize(hi - lo)))
}

/// Whether sample `v` falls in bucket `i` of the threshold vector: strictly
/// above the lower edge and at or below the upper one.
pub open spec fn in_bucket(v: u64, th: Seq<u64>, i: int) -> bool {
    &&& 0 <= i
    &&& i + 1 < th.len()
    &&& bits::spec_flt(th[i], v)
    &&& bits::spec_fle(v, th[i + 1])
}

/// Whether `l` is the label the coarse-graining rule gives `v` under the
/// thresholds: one above the highest matching bucket, or zero when no
/// bucket matches (which NaN thresholds or samples can cause).
pub open spec fn grain_label_ok(v: u64, th: Seq<u64>, l: int) -> bool {
    ||| (l == 0 && (forall|i: int| !#[trigger] in_bucket(v, th, i)))
    ||| (1 <= l && in_bucket(v, th, l - 1) && (forall|i: int|
        l - 1 < i ==> !#[trigger] in_bucket(v, th, i)))
}

/// Like [`grain_label_ok`], but judged over the buckets below `bound` only:
/// the invariant shape of the labelling sweep.
spec fn grain_label_upto(v: u64, th: Seq<u64>, l: int, bound: int) -> bool {
    ||| (l == 0 && (forall|i: int| i < bound ==> !#[trigger] in_bucket(v, th, i)))
    ||| (1 <= l <= bound && in_bucket(v, th, l - 1) && (forall|i: int|
        l - 1 < i < bound ==> !#[trigger] in_bucket(v, th, i)))
}

/// Labels every sample with the bucket it falls in among the `num_groups`
/// buckets the thresholds delimit, one-based, sweeping the buckets upward
/// so the highest match wins; a sample matching no bucket keeps label 0.
/// The assignment is pinned down exactly by [`grain_label_ok`].
pub fn grain_labels(a: &Vec<u64>, th: &Vec<u64>, num_groups: usize) -> (r: Vec<usize>)
    requires
        th.len() == num_groups + 1,
    ensures
        r@.len() == a@.len(),
        forall|j: int| 0 <= j < r@.len() ==> grain_label_ok(a@[j], th@, #[trigger] r@[j] as int),
        forall|j: int| 0 <= j < r@.len() ==> #[trigger] r@[j] <= num_groups,
{
    let n: usize = a.len();
    let mut labels: Vec<usize> = Vec::new();
    for j in 0..n
        invariant
            labels@.len() == j,
            forall|k: int| 0 <= k < j ==> #[trigger] labels@[k] == 0,
    {
        labels.push(0);
    }
    proof {
        assert forall|k: int| 0 <= k < n implies grain_label_upto(
            a@[k],
            th@,
            #[trigger] labels@[k] as int,
            0,
        ) by {}
    }
    for i in 0..num_groups
        invariant
            n == a.len(),
            th@.len() == num_groups + 1,
            labels@.len() == n,
            forall|k: int| 0 <= k < n ==> #[trigger] labels@[k] <= num_groups,
            forall|k: int| 0 <= k < n ==> grain_label_upto(
                a@[k],
                th@,
                #[trigger] labels@[k] as int,
                i as int,
            ),
    {
        for j in 0..n
            invariant
                n == a.len(),
                th@.len() == num_groups + 1,
                i < num_groups,
                labels@.len() == n,
                forall|k: int| 0 <= k < n ==> #[trigger] labels@[k] <= num_groups,
                forall|k: int| j <= k < n ==> grain_label_upto(
                    a@[k],
                    th@,
                    #[trigger] labels@[k] as int,
                    i as int,
                ),
                forall|k: int| 0 <= k < j ==> grain_label_upto(
                    a@[k],
                    th@,
                    #[trigger] labels@[k] as int,
                    i + 1,
                ),
        {
            let hit: bool = bits::flt(th[i], a[j]) && bits::fle(a[j], th[i + 1]);
            proof {
                assert(hit == in_bucket(a@[j as int], th@, i as int));
            }
            if hit {
                labels[j] = i + 1;
            }
            proof {
                assert(grain_label_upto(a@[j as int], th@, labels@[j as int] as int, i + 1));
            }
        }
    }
    proof {
        assert forall|k: int| 0 <= k < n implies grain_label_ok(
            a@[k],
            th@,
            #[trigger] labels@[k] as int,
        ) by {
            let l = labels@[k] as int;
            assert(grain_label_upto(a@[k], th@, l, num_groups as int));
            assert forall|i: int| num_groups <= i implies !#[trigger] in_bucket(a@[k], th@, i) by {}
        }
    }
    labels
}

/// Coarse-grains the series into `num_groups` symbolic labels: bucket edges
/// are the quantiles at evenly spaced probabilities, the lowest edge is
/// pushed below the minimum, and each sample falling in bucket `i` (left
/// edge excluded, right edge included) is labelled `i + 1` by
/// [`grain_labels`]. Every label is at most `num_groups`; a sample matching
/// no bucket (possible only through NaN) keeps label 0.
pub fn coarsegrain<O: RealOps>(ops: &O, a: &Vec<u64>, num_groups: usize) -> (r: Vec<usize>)
    requires
        a.len() >= 1,
        num_groups < usize::MAX,
    ensures
        r@.len() == a@.len(),
        forall|j: int| 0 <= j < r@.len() ==> #[trigger] r@[j] <= num_groups,
{
    let n: usize = a.len();
    let probs: Vec<u64> = linspace(ops, bits::ZERO_BITS, bits::ONE_BITS, num_groups + 1);
    let mut th: Vec<u64> = Vec::new();
    for i in 0..num_groups + 1
        invariant
            th@.len() == i,
            probs@.len() == num_groups + 1,
            n == a.len() >= 1,
    {
        th.push(quantile(ops, a, probs[i]));
    }
    let first: u64 = th[0];
    th[0] = ops.sub(first, bits::ONE_BITS);
    grain_labels(a, &th, num_groups)
}

/// Minus the sum of `v·ln v` over the strictly positive entries: the entropy
/// functional applied to a vector of weights.
pub fn f_entropy<O: RealOps>(ops: &O, a: &Vec<u64>) -> u64 {
    let n: usize = a.len();
    let mut acc: u64 = bits::ZERO_BITS;
    for i in 0..n
        invariant
            n == a.len(),
    {
        if bits::flt(bits::ZERO_BITS, a[i]) {
            acc = ops.add(acc, ops.mul(a[i], ops.ln(a[i])));
        }
    }
    let neg_one: u64 = ops.sub(bits::ZERO_BITS, ops.from_usize(1));
    ops.mul(neg_one, acc)
}

/// Simple linear regression of `y[0..n]` against `x[0..n]`: the slope and
/// intercept of the least-squares line, or a pair of zeros when the
/// determinant vanishes numerically.
pub fn linreg<O: RealOps>(ops: &O, n: usize, x: &Vec<u64>, y: &Vec<u64>) -> (u64, u64)
    requires
        n <= x.len(),
        n <= y.len(),
{
    let m: usize = n;
    let mut sumx: u64 = bits::ZERO_BITS;
    let mut sumx2: u64 = bits::ZERO_BITS;
    let mut sumxy: u64 = bits::ZERO_BITS;
    let mut sumy: u64 = bits::ZERO_BITS;
    for i in 0..m
        invariant
            m <= x.len(),
            m <= y.len(),
    {
        sumx = ops.add(sumx, x[i]);
        sumx2 = ops.add(sumx2, ops.mul(x[i], x[i]));
        sumxy = ops.add(sumxy, ops.mul(x[i], y[i]));
        sumy = ops.add(sumy, y[i]);
    }
    let nf: u64 = ops.from_usize(m);
    let denom: u64 = ops.sub(ops.mul(nf, sumx2), ops.mul(sumx, sumx));
    if bits::feq(denom, bits::ZERO_BITS) {
        return (bits::ZERO_BITS, bits::ZERO_BITS);
    }
    (
        ops.div(ops.sub(ops.mul(nf, sumxy), ops.mul(sumx, sumy)), denom),
        ops.div(ops.sub(ops.mul(sumy, sumx2), ops.mul(sumx, sumxy)), denom),
    )
}

/// The Euclidean norm: the square root of the sum of squares.
pub fn norm<O: RealOps>(ops: &O, a: &Vec<u64>) -> u64 {
    let n: usize = a.len();
    let mut acc: u64 = bits::ZERO_BITS;
    for i in 0..n
        invariant
            n == a.len(),
    {
        acc = ops.add(acc, ops.mul(a[i], a[i]));
    }
    ops.sqrt(acc)
}

/// The correlation kernel over the first `b.len()` entries of both series,
/// around the supplied means: the centred cross sum over the root of the
/// product of the centred square sums.
pub fn corr<O: RealOps>(ops: &O, a: &Vec<u64>, b: &Vec<u64>, mean_a: u64, mean_b: u64) -> (r: u64)
    requires
        b.len() <= a.len(),
{
    let n: usize = b.len();
    let mut nom: u64 = bits::ZERO_BITS;
    let mut den_a: u64 = bits::ZERO_BITS;
    let mut den_b: u64 = bits::ZERO_BITS;
    for i in 0..n
        invariant
            n == b.len(),
            n <= a.len(),
    {
        let da: u64 = ops.sub(a[i], mean_a);
        let db: u64 = ops.sub(b[i], mean_b);
        nom = ops.add(nom, ops.mul(da, db));
        den_a = ops.add(den_a, ops.mul(da, da));
        den_b = ops.add(den_b, ops.mul(db, db));
    }
    ops.div(nom, ops.sqrt(ops.mul(den_a, den_b)))
}

/// Lagged correlation of the series with itself, with the per-window means
/// looked up in a prefix-mean table (entry `i` holding the mean of the first
/// `i + 1` samples): the full-series mean against the mean of the window the
/// lagged copy leaves behind.
pub fn autocorr_lag<O: RealOps>(
    ops: &O,
    a: &Vec<u64>,
    prefix_mean_a: &Vec<u64>,
    lag: usize,
) -> (r: u64)
    requires
        prefix_mean_a.len() >= 1,
        lag < prefix_mean_a.len(),
        lag <= a.len(),
{
    let mean_a: u64 = prefix_mean_a[prefix_mean_a.len() - 1];
    let mean_b: u64 = prefix_mean_a[prefix_mean_a.len() - 1 - lag];
    let mut b: Vec<u64> = Vec::new();
    let n: usize = a.len();
    let mut i: usize = lag;
    while i < n
        invariant
            lag <= i <= n == a.len(),
            b@.len() == i - lag,
        decreases n - i,
    {
        b.push(a[i]);
        i = i + 1;
    }
    corr(ops, a, &b, mean_a, mean_b)
}

/// The sample covariance of two series of equal length (`n - 1`
/// denominator).
pub fn cov<O: RealOps>(ops: &O, a: &Vec<u64>, b: &Vec<u64>) -> (r: u64)
    requires
        a.len() >= 1,
        b.len() >= a.len(),
{
    let n: usize = a.len();
    let mean_x: u64 = mean(ops, a);
    let mean_y: u64 = mean(ops, b);
    let mut acc: u64 = bits::ZERO_BITS;
    for i in 0..n
        invariant
            n == a.len(),
            n <= b.len(),
    {
        acc = ops.add(acc, ops.mul(ops.sub(a[i], mean_x), ops.sub(b[i], mean_y)));
    }
    ops.div(acc, ops.from_usize(n - 1))
}

/// The matrix of sample covariances between the columns of a rectangular
/// table of rows.
pub fn covariance_matrix<O: RealOps>(ops: &O, a: &Vec<Vec<u64>>) -> (r: Vec<Vec<u64>>)
    requires
        a.len() >= 1,
        forall|k: int| 0 <= k < a@.len() ==> (#[trigger] a@[k])@.len() == a@[0]@.len(),
    ensures
        r@.len() == a@[0]@.len(),
        forall|k: int| 0 <= k < r@.len() ==> (#[trigger] r@[k])@.len() == a@[0]@.len(),
{
    let rows: usize = a.len();
    let cols: usize = a[0].len();
    let mut out: Vec<Vec<u64>> = Vec::new();
    for i in 0..cols
        invariant
            rows == a.len() >= 1,
            cols == a@[0]@.len(),
            forall|k: int| 0 <= k < a@.len() ==> (#[trigger] a@[k])@.len() == cols,
            out@.len() == i,
            forall|k: int| 0 <= k < i ==> (#[trigger] out@[k])@.len() == cols,
    {
        let mut row_out: Vec<u64> = Vec::new();
        let mut col_i: Vec<u64> = Vec::new();
        for r2 in 0..rows
            invariant
                rows == a.len(),
                cols == a@[0]@.len(),
                i < cols,
                forall|k: int| 0 <= k < a@.len() ==> (#[trigger] a@[k])@.len() == cols,
                col_i@.len() == r2,
        {
            let row: &Vec<u64> = &a[r2];
            col_i.push(row[i]);
        }
        for j in 0..cols
            invariant
                rows == a.len() >= 1,
                cols == a@[0]@.len(),
                i < cols,
                forall|k: int| 0 <= k < a@.len() ==> (#[trigger] a@[k])@.len() == cols,
                col_i@.len() == rows,
                row_out@.len() == j,
        {
            let mut col_j: Vec<u64> = Vec::new();
            for r2 in 0..rows
                invariant
                    rows == a.len(),
                    cols == a@[0]@.len(),
                    j < cols,
                    forall|k: int| 0 <= k < a@.len() ==> (#[trigger] a@[k])@.len() == cols,
                    col_j@.len() == r2,
            {
                let row: &Vec<u64> = &a[r2];
                col_j.push(row[j]);
            }
            row_out.push(cov(ops, &col_i, &col_j));
        }
        out.push(row_out);
    }
    out
}

/// Whether a sample belongs at bin `j` of the given edges under the
/// strict rule: `j` is the first edge strictly above the sample, or 0 when
/// no edge is.
pub open spec fn lt_bin_ok(v: u64, edges: Seq<u64>, j: int) -> bool {
    ||| (0 <= j < edges.len() && bits::spec_flt(v, edges[j]) && (forall|k: int|
        0 <= k < j ==> !bits::spec_flt(v, #[trigger] edges[k])))
    ||| (j == 0 && (forall|k: int| 0 <= k < edges.len() ==> !bits::spec_flt(v, #[trigger] edges[k])))
}

/// Assigns each sample the index of the first bin edge strictly above it
/// (or 0 when no edge is above it): the bin-membership rule of the
/// mutual-information histograms.
pub fn histbinassign(a: &Vec<u64>, bin_edges: &Vec<u64>) -> (r: Vec<usize>)
    ensures
        r@.len() == a@.len(),
        forall|i: int| 0 <= i < a@.len() ==> lt_bin_ok(a@[i], bin_edges@, #[trigger] r@[i] as int),
{
    let n: usize = a.len();
    let m: usize = bin_edges.len();
    let mut out: Vec<usize> = Vec::new();
    for i in 0..n
        invariant
            n == a.len(),
            m == bin_edges.len(),
            out@.len() == i,
            forall|t: int| 0 <= t < i ==> lt_bin_ok(a@[t], bin_edges@, #[trigger] out@[t] as int),
    {
        let v: u64 = a[i];
        let mut j: usize = 0;
        while j < m && !bits::flt(v, bin_edges[j])
            invariant
                m == bin_edges.len(),
                j <= m,
                forall|k: int| 0 <= k < j ==> !bits::spec_flt(v, #[trigger] bin_edges@[k]),
            decreases m - j,
        {
            j = j + 1;
        }
        let chosen: usize = if j < m {
            j
        } else {
            0
        };
        out.push(chosen);
    }
    out
}

/// The least bin index a sample falls in under the inclusive rule (`None`
/// when it is above every edge).
pub open spec fn le_bin(v: u64, edges: Seq<u64>) -> Option<int>
    decreases edges.len(),
{
    if edges.len() == 0 {
        None
    } else if bits::spec_fle(v, edges[0]) {
        Some(0int)
    } else {
        match le_bin(v, edges.drop_first()) {
            None => None,
            Some(j) => Some(j + 1),
        }
    }
}

/// How many samples of a series fall in bin `j` under the inclusive rule.
pub open spec fn le_bin_count(s: Seq<u64>, edges: Seq<u64>, j: int) -> int
    decreases s.len(),
{
    if s.len() == 0 {
        0
    } else {
        le_bin_count(s.drop_last(), edges, j) + if le_bin(s.last(), edges) == Some(j) {
            1int
        } else {
            0int
        }
    }
}

/// `le_bin` returns the least index whose edge is at or above the sample.
proof fn lemma_le_bin_characterization(v: u64, edges: Seq<u64>)
    ensures
        match le_bin(v, edges) {
            Some(j) => 0 <= j < edges.len() && bits::spec_fle(v, edges[j]) && (forall|k: int|
                0 <= k < j ==> !bits::spec_fle(v, #[trigger] edges[k])),
            None => forall|k: int| 0 <= k < edges.len() ==> !bits::spec_fle(v, #[trigger] edges[k]),
        },
    decreases edges.len(),
{
    if edges.len() == 0 {
    } else if bits::spec_fle(v, edges[0]) {
        assert(le_bin(v, edges) == Some(0int));
    } else {
        lemma_le_bin_characterization(v, edges.drop_first());
        let rest = edges.drop_first();
        assert(forall|k: int| 0 <= k < rest.len() ==> rest[k] == edges[k + 1]);
        match le_bin(v, rest) {
            None => {
                assert(le_bin(v, edges) is None);
                assert forall|k: int| 0 <= k < edges.len() implies !bits::spec_fle(
                    v,
                    #[trigger] edges[k],
                ) by {
                    if k >= 1 {
                        assert(!bits::spec_fle(v, rest[k - 1]));
                    }
                }
            },
            Some(j) => {
                assert(le_bin(v, edges) == Some(j + 1));
                assert(bits::spec_fle(v, edges[j + 1]));
                assert forall|k: int| 0 <= k < j + 1 implies !bits::spec_fle(
                    v,
                    #[trigger] edges[k],
                ) by {
                    if k >= 1 {
                        assert(!bits::spec_fle(v, rest[k - 1]));
                    }
                }
            },
        }
    }
}

/// Bin counts never exceed the number of samples.
proof fn lemma_le_bin_count_bound(s: Seq<u64>, edges: Seq<u64>, j: int)
    ensures
        0 <= le_bin_count(s, edges, j) <= s.len(),
    decreases s.len(),
{
    if s.len() > 0 {
        lemma_le_bin_count_bound(s.drop_last(), edges, j);
    }
}

/// Counts, for each bin edge, the samples whose least at-or-above edge it
/// is: the count vector is pinned down exactly by [`le_bin_count`].
pub fn histcount_edges(a: &Vec<u64>, bin_edges: &Vec<u64>) -> (r: Vec<usize>)
    ensures
        r@.len() == bin_edges@.len(),
        forall|j: int| 0 <= j < r@.len() ==> #[trigger] r@[j] as int == le_bin_count(
            a@,
            bin_edges@,
            j,
        ),
{
    let n: usize = a.len();
    let m: usize = bin_edges.len();
    let mut counts: Vec<usize> = Vec::new();
    for j in 0..m
        invariant
            counts@.len() == j,
            forall|t: int| 0 <= t < j ==> #[trigger] counts@[t] == 0,
    {
        counts.push(0);
    }
    proof {
        assert forall|j: int| 0 <= j < m implies #[trigger] counts@[j] as int == le_bin_count(
            a@.take(0),
            bin_edges@,
            j,
        ) by {
            assert(a@.take(0) =~= Seq::<u64>::empty());
        }
    }
    for i in 0..n
        invariant
            n == a.len(),
            m == bin_edges.len(),
            counts@.len() == m,
            forall|j: int| 0 <= j < m ==> #[trigger] counts@[j] as int == le_bin_count(
                a@.take(i as int),
                bin_edges@,
                j,
            ),
    {
        let v: u64 = a[i];
        let mut j: usize = 0;
        while j < m && !bits::fle(v, bin_edges[j])
            invariant
                m == bin_edges.len(),
                j <= m,
                forall|k: int| 0 <= k < j ==> !bits::spec_fle(v, #[trigger] bin_edges@[k]),
            decreases m - j,
        {
            j = j + 1;
        }
        let found: bool = j < m;
        let target: usize = if found {
            j
        } else {
            0
        };
        proof {
            lemma_le_bin_characterization(v, bin_edges@);
            assert(a@.take(i + 1).drop_last() =~= a@.take(i as int));
            assert(a@.take(i + 1).last() == v);
            if found {
                assert(le_bin(v, bin_edges@) == Some(target as int));
            } else {
                assert(le_bin(v, bin_edges@) is None);
            }
            assert forall|j2: int| 0 <= j2 < m implies le_bin_count(a@.take(i + 1), bin_edges@, j2)
                == le_bin_count(a@.take(i as int), bin_edges@, j2) + (if found && j2
                == target as int {
                1int
            } else {
                0int
            }) by {}
        }
        if found {
            proof {
                lemma_le_bin_count_bound(a@.take(i as int), bin_edges@, target as int);
            }
            let c: usize = counts[target];
            counts[target] = c + 1;
        }
    }
    proof {
        assert(a@.take(n as int) =~= a@);
    }
    counts
}

/// Equal-width histogram counts over the span of the series, with the bin
/// edges alongside. A non-positive or degenerate requested bin count is
/// brought back to one bin, every sample lands in exactly one bin, and the
/// counts always sum to the length of the series.
pub fn histcounts<O: RealOps>(ops: &O, a: &Vec<u64>, n_bins: usize) -> (r: (Vec<usize>, Vec<u64>))
    requires
        a.len() >= 1,
        n_bins < usize::MAX,
    ensures
        r.0@.len() >= 1,
        1 <= n_bins ==> r.0@.len() == n_bins,
        r.1@.len() == r.0@.len() + 1,
        sum_counts(r.0@) == a@.len(),
{
    let n: usize = a.len();
    let mut min_val: u64 = a[0];
    let mut max_val: u64 = a[0];
    for i in 0..n
        invariant
            n == a.len(),
    {
        if bits::tle(max_val, a[i]) {
            max_val = a[i];
        }
        if bits::tle(a[i], min_val) {
            min_val = a[i];
        }
    }
    let mut nb: usize = n_bins;
    if nb == 0 {
        let sd: u64 = std_dev(ops, a);
        let c35: u64 = ops.div(ops.from_usize(7), ops.from_usize(2));
        let third: u64 = ops.div(ops.from_usize(1), ops.from_usize(3));
        let neg_third: u64 = ops.sub(bits::ZERO_BITS, third);
        let width: u64 = ops.mul(ops.mul(c35, sd), ops.powf(ops.from_usize(n), neg_third));
        nb = ops.to_usize(ops.ceil(ops.div(ops.sub(max_val, min_val), width)));
        if nb == 0 {
            nb = 1;
        }
        if nb == usize::MAX {
            nb = usize::MAX - 1;
        }
    }
    let bin_step: u64 = ops.div(ops.sub(max_val, min_val), ops.from_usize(nb));

    let mut counts: Vec<usize> = Vec::new();
    for j in 0..nb
        invariant
            counts@.len() == j,
            sum_counts(counts@) == 0,
    {
        proof {
            assert(counts@.push(0usize).drop_last() =~= counts@);
        }
        counts.push(0);
    }
    for i in 0..n
        invariant
            n == a.len(),
            counts@.len() == nb >= 1,
            sum_counts(counts@) == i,
    {
        let mut b: usize = ops.to_usize(ops.div(ops.sub(a[i], min_val), bin_step));
        if b >= nb {
            b = nb - 1;
        }
        proof {
            lemma_sum_element(counts@, b as int);
            lemma_sum_update(counts@, b as int, (counts@[b as int] + 1) as usize);
        }
        let c: usize = counts[b];
        counts[b] = c + 1;
    }

    let mut edges: Vec<u64> = Vec::new();
    for i in 0..nb + 1
        invariant
            edges@.len() == i,
    {
        edges.push(ops.add(min_val, ops.mul(ops.from_usize(i), bin_step)));
    }
    (counts, edges)
}

/// The adaptive bin-count rule: zero for a near-constant series (standard
/// deviation numerically below one thousandth), otherwise the span over
/// `3.5·σ·n^(-1/3)`, rounded up.
pub fn num_bins_auto<O: RealOps>(ops: &O, a: &Vec<u64>) -> (r: usize)
    ensures
        a@.len() == 0 ==> r == 0,
{
    if a.len() == 0 {
        return 0;
    }
    let n: usize = a.len();
    let mut min_val: u64 = a[0];
    let mut max_val: u64 = a[0];
    for i in 0..n
        invariant
            n == a.len(),
    {
        if bits::tle(max_val, a[i]) {
            max_val = a[i];
        }
        if bits::tle(a[i], min_val) {
            min_val = a[i];
        }
    }
    let sd: u64 = std_dev(ops, a);
    let thresh: u64 = ops.div(ops.from_usize(1), ops.from_usize(1000));
    if bits::flt(sd, thresh) {
        return 0;
    }
    let c35: u64 = ops.div(ops.from_usize(7), ops.from_usize(2));
    let third: u64 = ops.div(ops.from_usize(1), ops.from_usize(3));
    let neg_third: u64 = ops.sub(bits::ZERO_BITS, third);
    let width: u64 = ops.mul(ops.mul(c35, sd), ops.powf(ops.from_usize(n), neg_third));
    ops.to_usize(ops.ceil(ops.div(ops.sub(max_val, min_val), width)))
}

} // verus!
