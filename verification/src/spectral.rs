//! The autocorrelation engine and the Welch spectral estimator.
//!
//! Autocorrelation follows the Wiener–Khinchin route: the mean-removed
//! series is zero-padded to twice the next power of two, transformed,
//! multiplied by its own conjugate, transformed back, and normalized by the
//! zero-lag value. The transform itself is the provider's; the complex
//! arithmetic around it and every scan over the sequence are verified here.
//! The zero-lag entry is pinned down exactly: it is 1.0 whenever the
//! zero-lag power is an ordinary value, and NaN otherwise (a constant series
//! is the one natural way to land in the NaN case).

use vstd::prelude::*;
use crate::arith::RealOps;
use crate::bits;
use crate::statistics::{mean, norm};

verus! {

/// An upper bound on series lengths so that padded buffer sizes stay within
/// the machine word on any platform: two to the twenty-ninth.
pub const MAX_SERIES_LEN: usize = 0x2000_0000;

/// Whether `p` is a power of two.
pub open spec fn is_pow2(p: int) -> bool
    decreases p,
{
    if p <= 0 {
        false
    } else if p == 1 {
        true
    } else {
        p % 2 == 0 && is_pow2(p / 2)
    }
}

/// The least power of two at or above `n` (for `n` at least one), by the
/// halving recurrence: doubling the answer for the rounded-up half.
pub open spec fn next_pow2_spec(n: int) -> int
    decreases n,
{
    if n <= 1 {
        1
    } else {
        2 * next_pow2_spec((n + 1) / 2)
    }
}

/// A power of two in `[n, 2n)` is the least power of two at or above `n`.
proof fn lemma_next_pow2_unique(n: int, q: int)
    requires
        1 <= n,
        is_pow2(q),
        n <= q < 2 * n,
    ensures
        q == next_pow2_spec(n),
    decreases n,
{
    if n == 1 {
        assert(q == 1);
    } else {
        let n2 = (n + 1) / 2;
        let q2 = q / 2;
        assert(q >= 2);
        assert(q % 2 == 0 && is_pow2(q2));
        assert(q == 2 * q2);
        assert(q >= 2 * n2) by {
            if n % 2 == 1 {
                assert(q >= n + 1);
            }
        }
        lemma_next_pow2_unique(n2, q2);
    }
}

/// The least power of two at or above `n`: exactly [`next_pow2_spec`], which
/// keeps the padded buffer sizes within machine bounds.
fn next_pow2(n: usize) -> (p: usize)
    requires
        1 <= n <= MAX_SERIES_LEN,
    ensures
        n <= p < 2 * n,
        p == next_pow2_spec(n as int),
{
    let mut p: usize = 1;
    while p < n
        invariant
            1 <= p < 2 * n,
            is_pow2(p as int),
            n <= MAX_SERIES_LEN,
        decreases 2 * n - p,
    {
        proof {
            assert((2 * p) as int / 2 == p as int);
            assert(is_pow2(2 * p as int));
        }
        p = p * 2;
    }
    proof {
        lemma_next_pow2_unique(n as int, p as int);
    }
    p
}

/// The real and imaginary parts of the complex product `(ar + i·ai)·(br +
/// i·bi)`, by the textbook rule.
fn cmul<O: RealOps>(ops: &O, ar: u64, ai: u64, br: u64, bi: u64) -> (u64, u64) {
    (
        ops.sub(ops.mul(ar, br), ops.mul(ai, bi)),
        ops.add(ops.mul(ar, bi), ops.mul(ai, br)),
    )
}

/// The real part of the complex quotient `(ar + i·ai)/(br + i·bi)`, with the
/// squared magnitude of the divisor supplied by the caller.
fn cdiv_re<O: RealOps>(ops: &O, ar: u64, ai: u64, br: u64, bi: u64, denom_norm: u64) -> u64 {
    ops.div(ops.add(ops.mul(ar, br), ops.mul(ai, bi)), denom_norm)
}

/// The full autocorrelation sequence of the series, at the padded transform
/// length (at least twice and less than four times the series length). The
/// zero-lag entry is exactly 1.0 unless the zero-lag power was degenerate,
/// in which case it is exactly the canonical NaN.
pub fn autocorr<O: RealOps>(ops: &O, a: &Vec<u64>) -> (r: Vec<u64>)
    requires
        1 <= a.len() <= MAX_SERIES_LEN,
    ensures
        r@.len() == 2 * next_pow2_spec(a@.len() as int),
        2 * a@.len() <= r@.len() < 4 * a@.len(),
        r@[0] == bits::ONE_BITS || r@[0] == bits::NAN_BITS,
        !bits::spec_is_nan(r@[0]) ==> r@[0] == bits::ONE_BITS,
{
    proof {
        bits::lemma_constant_classes();
    }
    let n: usize = a.len();
    let n2: usize = next_pow2(n) * 2;
    let m: u64 = mean(ops, a);

    let mut re: Vec<u64> = Vec::new();
    for i in 0..n
        invariant
            n == a.len(),
            re@.len() == i,
    {
        re.push(ops.sub(a[i], m));
    }
    while re.len() < n2
        invariant
            re@.len() <= n2,
        decreases n2 - re@.len(),
    {
        re.push(bits::ZERO_BITS);
    }
    let mut im: Vec<u64> = Vec::new();
    while im.len() < n2
        invariant
            im@.len() <= n2,
        decreases n2 - im@.len(),
    {
        im.push(bits::ZERO_BITS);
    }

    let fwd: (Vec<u64>, Vec<u64>) = ops.fft(&re, &im, false);
    let (fre, fim): (Vec<u64>, Vec<u64>) = fwd;
    if fre.len() != n2 || fim.len() != n2 {
        return nan_fallback(n2);
    }

    let mut pre: Vec<u64> = Vec::new();
    let mut pim: Vec<u64> = Vec::new();
    for i in 0..n2
        invariant
            fre@.len() == n2,
            fim@.len() == n2,
            pre@.len() == i,
            pim@.len() == i,
    {
        let prod: (u64, u64) = cmul(ops, fre[i], fim[i], fre[i], bits::fneg(fim[i]));
        pre.push(prod.0);
        pim.push(prod.1);
    }

    let back: (Vec<u64>, Vec<u64>) = ops.fft(&pre, &pim, true);
    let (bre, bim): (Vec<u64>, Vec<u64>) = back;
    if bre.len() != n2 || bim.len() != n2 {
        return nan_fallback(n2);
    }

    let d_re: u64 = bre[0];
    let d_im: u64 = bim[0];
    let denom_norm: u64 = ops.add(ops.mul(d_re, d_re), ops.mul(d_im, d_im));

    let mut out: Vec<u64> = Vec::new();
    // The zero-lag entry divides the zero-lag value by itself under the
    // textbook complex rule, whose real part is the squared magnitude over
    // the squared magnitude: exactly 1.0 whenever that magnitude is finite
    // and nonzero, and NaN (zero over zero, infinity over infinity, or NaN
    // over NaN) otherwise. The engine writes that case split out directly.
    if bits::is_finite(denom_norm) && !bits::is_zero(denom_norm) {
        out.push(bits::ONE_BITS);
    } else {
        out.push(bits::NAN_BITS);
    }
    let mut k: usize = 1;
    while k < n2
        invariant
            1 <= k <= n2,
            bre@.len() == n2,
            bim@.len() == n2,
            out@.len() == k,
            out@[0] == bits::ONE_BITS || out@[0] == bits::NAN_BITS,
        decreases n2 - k,
    {
        out.push(cdiv_re(ops, bre[k], bim[k], d_re, d_im, denom_norm));
        k = k + 1;
    }
    out
}

/// A transform-length buffer of NaN patterns: the defensive answer when the
/// provider's transform came back at the wrong length.
fn nan_fallback(n2: usize) -> (r: Vec<u64>)
    requires
        n2 >= 1,
    ensures
        r@.len() == n2,
        r@[0] == bits::NAN_BITS,
{
    let mut out: Vec<u64> = Vec::new();
    while out.len() < n2
        invariant
            out@.len() <= n2,
            out@.len() >= 1 ==> out@[0] == bits::NAN_BITS,
        decreases n2 - out@.len(),
    {
        out.push(bits::NAN_BITS);
    }
    out
}

/// The first lag at which an autocorrelation sequence stops being strictly
/// positive, capped at `max_tau`: the scan is pinned down exactly — every
/// lag below the result is strictly positive, and the result itself (when
/// under the cap) is not.
pub fn first_zero_scan(ac: &Vec<u64>, max_tau: usize) -> (r: usize)
    ensures
        r <= max_tau,
        r <= ac@.len(),
        forall|k: int| 0 <= k < r ==> bits::spec_flt(bits::ZERO_BITS, #[trigger] ac@[k]),
        r < max_tau ==> (r >= ac@.len() || !bits::spec_flt(bits::ZERO_BITS, ac@[r as int])),
{
    let n: usize = ac.len();
    let mut i: usize = 0;
    while i < max_tau && i < n && bits::flt(bits::ZERO_BITS, ac[i])
        invariant
            i <= max_tau,
            i <= n,
            n == ac@.len(),
            forall|k: int| 0 <= k < i ==> bits::spec_flt(bits::ZERO_BITS, #[trigger] ac@[k]),
        decreases max_tau - i,
    {
        i = i + 1;
    }
    i
}

/// The first zero crossing of the series' autocorrelation: the scan of
/// [`first_zero_scan`] applied to [`autocorr`], capped at `max_tau`.
pub fn first_zero<O: RealOps>(ops: &O, a: &Vec<u64>, max_tau: usize) -> (r: usize)
    requires
        1 <= a.len() <= MAX_SERIES_LEN,
    ensures
        r <= max_tau,
{
    let ac: Vec<u64> = autocorr(ops, a);
    first_zero_scan(&ac, max_tau)
}

/// The Welch power spectral density estimate: mean-removed, windowed blocks
/// at half-window overlap, transformed and averaged, scaled by
/// `dt/(K·‖window‖²)`, with every interior bin doubled to conserve
/// one-sided power. Returns the frequency axis (resolution `1/(nfft·dt)`)
/// and the power, both of length `nfft/2 + 1`.
pub fn welch<O: RealOps>(ops: &O, a: &Vec<u64>, fs: u64, window: &Vec<u64>) -> (r: (
    Vec<u64>,
    Vec<u64>,
))
    requires
        1 <= a.len() <= MAX_SERIES_LEN,
        window.len() >= 1,
    ensures
        r.0@.len() == r.1@.len(),
        r.0@.len() == next_pow2_spec(a@.len() as int) / 2 + 1,
        r.0@.len() >= 1,
{
    let n: usize = a.len();
    let wlen: usize = window.len();
    let nfft: usize = next_pow2(n);
    let one: u64 = ops.from_usize(1);
    let dt: u64 = ops.div(one, fs);
    let m: u64 = mean(ops, a);
    let half: usize = if wlen / 2 >= 1 {
        wlen / 2
    } else {
        1
    };

    let mut p_acc: Vec<u64> = Vec::new();
    while p_acc.len() < nfft
        invariant
            p_acc@.len() <= nfft,
        decreases nfft - p_acc@.len(),
    {
        p_acc.push(bits::ZERO_BITS);
    }

    let mut k: usize = 0;
    if wlen <= n {
        k = (n - wlen) / half + 1;
        let mut i: usize = 0;
        while i < k
            invariant
                n == a.len(),
                wlen == window.len(),
                wlen <= n <= MAX_SERIES_LEN,
                1 <= half,
                k == ((n - wlen) as int) / (half as int) + 1,
                i <= k,
                wlen <= nfft,
                p_acc@.len() == nfft,
            decreases k - i,
        {
            proof {
                let q = ((n - wlen) as int) / (half as int);
                assert(i <= q);
                assert(i * half <= q * half) by (nonlinear_arith)
                    requires
                        0 <= i <= q,
                        half >= 1,
                ;
                vstd::arithmetic::div_mod::lemma_remainder_lower(
                    (n - wlen) as int,
                    half as int,
                );
                assert(q * half <= n - wlen);
            }
            let off: usize = i * half;
            let mut seg_re: Vec<u64> = Vec::new();
            for j in 0..wlen
                invariant
                    n == a.len(),
                    wlen == window.len(),
                    off + wlen <= n,
                    seg_re@.len() == j,
            {
                seg_re.push(ops.sub(ops.mul(window[j], a[off + j]), m));
            }
            while seg_re.len() < nfft
                invariant
                    seg_re@.len() <= nfft,
                decreases nfft - seg_re@.len(),
            {
                seg_re.push(bits::ZERO_BITS);
            }
            let mut seg_im: Vec<u64> = Vec::new();
            while seg_im.len() < nfft
                invariant
                    seg_im@.len() <= nfft,
                decreases nfft - seg_im@.len(),
            {
                seg_im.push(bits::ZERO_BITS);
            }
            let spec_pair: (Vec<u64>, Vec<u64>) = ops.fft(&seg_re, &seg_im, false);
            let (fre, fim): (Vec<u64>, Vec<u64>) = spec_pair;
            if fre.len() == nfft && fim.len() == nfft {
                for j in 0..nfft
                    invariant
                        fre@.len() == nfft,
                        fim@.len() == nfft,
                        p_acc@.len() == nfft,
                {
                    let mag: u64 = ops.sqrt(
                        ops.add(ops.mul(fre[j], fre[j]), ops.mul(fim[j], fim[j])),
                    );
                    let sq: u64 = ops.mul(mag, mag);
                    let prev: u64 = p_acc[j];
                    p_acc[j] = ops.add(prev, sq);
                }
            }
            i = i + 1;
        }
    }

    let nrm: u64 = norm(ops, window);
    let kmu: u64 = ops.mul(ops.from_usize(k), ops.mul(nrm, nrm));
    let n_out: usize = nfft / 2 + 1;
    let two: u64 = ops.from_usize(2);

    let mut pxx: Vec<u64> = Vec::new();
    for i in 0..n_out
        invariant
            n_out == nfft / 2 + 1,
            p_acc@.len() == nfft >= 1,
            pxx@.len() == i,
    {
        let mut v: u64 = ops.mul(ops.div(p_acc[i], kmu), dt);
        if i > 0 && i < n_out - 1 {
            v = ops.mul(v, two);
        }
        pxx.push(v);
    }

    let df: u64 = ops.div(one, ops.mul(ops.from_usize(nfft), dt));
    let mut freq: Vec<u64> = Vec::new();
    for i in 0..n_out
        invariant
            freq@.len() == i,
    {
        freq.push(ops.mul(ops.from_usize(i), df));
    }
    (freq, pxx)
}

} // verus!
