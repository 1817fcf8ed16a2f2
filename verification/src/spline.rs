//! Piecewise-cubic spline detrending and the dense least-squares machinery
//! under it: matrix products, normal equations, and Gauss elimination.
//!
//! Matrices travel flat, row-major, with their two sizes alongside; every
//! index computation is proved in bounds, so none of these routines can
//! panic. Degenerate numerical input (an exactly zero pivot, a vanishing
//! knot span) flows through the provider's arithmetic as non-finite values
//! rather than stopping the engine.

use vstd::prelude::*;
use crate::arith::RealOps;
use crate::bits;

verus! {

/// A row-major index stays inside the matrix.
pub proof fn lemma_grid_index(i: int, j: int, rows: int, cols: int)
    requires
        0 <= i < rows,
        0 <= j < cols,
    ensures
        0 <= i * cols + j < rows * cols,
{
    assert(i * cols + j < rows * cols) by (nonlinear_arith)
        requires
            0 <= i < rows,
            0 <= j < cols,
    ;
}

/// A vector of zero patterns of the requested length.
fn zeros(len: usize) -> (r: Vec<u64>)
    ensures
        r.len() == len,
        forall|k: int| 0 <= k < len ==> #[trigger] r@[k] == bits::ZERO_BITS,
{
    let mut out: Vec<u64> = Vec::new();
    while out.len() < len
        invariant
            out.len() <= len,
            forall|k: int| 0 <= k < out.len() ==> #[trigger] out@[k] == bits::ZERO_BITS,
        decreases len - out.len(),
    {
        out.push(bits::ZERO_BITS);
    }
    out
}

/// A vector of zero counters of the requested length.
fn uzeros(len: usize) -> (r: Vec<usize>)
    ensures
        r.len() == len,
        forall|k: int| 0 <= k < len ==> #[trigger] r@[k] == 0,
{
    let mut out: Vec<usize> = Vec::new();
    while out.len() < len
        invariant
            out.len() <= len,
            forall|k: int| 0 <= k < out.len() ==> #[trigger] out@[k] == 0,
        decreases len - out.len(),
    {
        out.push(0);
    }
    out
}

/// The row-major product of an `size_a1 × size_a2` matrix with a
/// `size_b1 × size_b2` matrix. The result buffer is square on the first
/// dimension and written at stride `size_b2`: the layout the normal
/// equations consume.
pub fn matrix_multiply<O: RealOps>(
    ops: &O,
    size_a1: usize,
    size_a2: usize,
    a: &Vec<u64>,
    size_b1: usize,
    size_b2: usize,
    b: &Vec<u64>,
) -> (r: Vec<u64>)
    requires
        a.len() == size_a1 * size_a2,
        b.len() == size_b1 * size_b2,
        size_b1 <= size_a2,
        size_b2 <= size_a1,
        size_a1 * size_a1 <= usize::MAX,
    ensures
        r.len() == size_a1 * size_a1,
{
    proof {
        assert(size_a1 * size_a1 >= 0) by (nonlinear_arith);
    }
    let total: usize = size_a1 * size_a1;
    let mut c: Vec<u64> = zeros(total);
    for i in 0..size_a1
        invariant
            c.len() == total,
            total == size_a1 * size_a1,
            a.len() == size_a1 * size_a2,
            b.len() == size_b1 * size_b2,
            size_b1 <= size_a2,
            size_b2 <= size_a1,
    {
        for j in 0..size_b2
            invariant
                i < size_a1,
                c.len() == total,
                total == size_a1 * size_a1,
                a.len() == size_a1 * size_a2,
                b.len() == size_b1 * size_b2,
                size_b1 <= size_a2,
                size_b2 <= size_a1,
        {
            proof {
                lemma_grid_index(i as int, j as int, size_a1 as int, size_b2 as int);
                lemma_grid_index(i as int, j as int, size_a1 as int, size_a1 as int);
                assert(i * size_b2 + j <= i * size_a1 + j) by (nonlinear_arith)
                    requires
                        0 <= i && size_b2 <= size_a1,
                ;
            }
            let out_idx: usize = i * size_b2 + j;
            let mut acc: u64 = bits::ZERO_BITS;
            for k in 0..size_b1
                invariant
                    i < size_a1,
                    j < size_b2,
                    out_idx == i * size_b2 + j,
                    out_idx < c.len(),
                    c.len() == total,
                    a.len() == size_a1 * size_a2,
                    b.len() == size_b1 * size_b2,
                    size_b1 <= size_a2,
                    size_b2 <= size_a1,
            {
                proof {
                    lemma_grid_index(i as int, k as int, size_a1 as int, size_a2 as int);
                    lemma_grid_index(k as int, j as int, size_b1 as int, size_b2 as int);
                }
                acc = ops.add(acc, ops.mul(a[i * size_a2 + k], b[k * size_b2 + j]));
            }
            c[out_idx] = acc;
        }
    }
    c
}

/// The product of an `size_a1 × size_a2` row-major matrix with the first
/// `sizeb` entries of a vector.
pub fn matrix_times_vector<O: RealOps>(
    ops: &O,
    size_a1: usize,
    size_a2: usize,
    a: &Vec<u64>,
    sizeb: usize,
    b: &Vec<u64>,
) -> (r: Vec<u64>)
    requires
        a.len() == size_a1 * size_a2,
        sizeb <= size_a2,
        sizeb <= b.len(),
    ensures
        r.len() == size_a1,
{
    let mut c: Vec<u64> = Vec::new();
    for i in 0..size_a1
        invariant
            c.len() == i,
            a.len() == size_a1 * size_a2,
            sizeb <= size_a2,
            sizeb <= b.len(),
    {
        let mut acc: u64 = bits::ZERO_BITS;
        for k in 0..sizeb
            invariant
                i < size_a1,
                a.len() == size_a1 * size_a2,
                sizeb <= size_a2,
                sizeb <= b.len(),
        {
            proof {
                lemma_grid_index(i as int, k as int, size_a1 as int, size_a2 as int);
            }
            acc = ops.add(acc, ops.mul(a[i * size_a2 + k], b[k]));
        }
        c.push(acc);
    }
    c
}

/// Solves a square system by forward elimination (no pivoting: the fixed
/// two-piece spline systems this serves have nonzero pivots, and a zero
/// pivot merely floods the answer with non-finite patterns) followed by
/// back substitution.
pub fn gauss_elimination<O: RealOps>(ops: &O, size: usize, a: Vec<u64>, b: Vec<u64>) -> (r: Vec<
    u64,
>)
    requires
        a.len() == size * size,
        b.len() >= size,
    ensures
        r.len() == size,
{
    let mut a_elim: Vec<u64> = Vec::new();
    let mut b_elim: Vec<u64> = Vec::new();
    for i in 0..size
        invariant
            a.len() == size * size,
            b.len() >= size,
            b_elim.len() == i,
    {
        b_elim.push(b[i]);
    }
    for i in 0..size * size
        invariant
            a.len() == size * size,
            a_elim.len() == i,
    {
        a_elim.push(a[i]);
    }

    for i in 0..size
        invariant
            a_elim.len() == size * size,
            b_elim.len() == size,
    {
        let mut j: usize = i + 1;
        while j < size
            invariant
                i < j <= size,
                i < size,
                a_elim.len() == size * size,
                b_elim.len() == size,
            decreases size - j,
        {
            proof {
                lemma_grid_index(j as int, i as int, size as int, size as int);
                lemma_grid_index(i as int, i as int, size as int, size as int);
            }
            let factor: u64 = ops.div(a_elim[j * size + i], a_elim[i * size + i]);
            b_elim[j] = ops.sub(b_elim[j], ops.mul(factor, b_elim[i]));
            let mut k: usize = i;
            while k < size
                invariant
                    i <= k <= size,
                    i < size,
                    j < size,
                    a_elim.len() == size * size,
                    b_elim.len() == size,
                decreases size - k,
            {
                proof {
                    lemma_grid_index(j as int, k as int, size as int, size as int);
                    lemma_grid_index(i as int, k as int, size as int, size as int);
                }
                let v: u64 = ops.sub(a_elim[j * size + k], ops.mul(factor, a_elim[i * size + k]));
                a_elim[j * size + k] = v;
                k = k + 1;
            }
            j = j + 1;
        }
    }

    let mut x: Vec<u64> = zeros(size);
    let mut down: usize = size;
    while down > 0
        invariant
            down <= size,
            x.len() == size,
            a_elim.len() == size * size,
            b_elim.len() == size,
        decreases down,
    {
        let i: usize = down - 1;
        let mut acc: u64 = b_elim[i];
        let mut j: usize = i + 1;
        while j < size
            invariant
                i < size,
                i < j <= size,
                x.len() == size,
                a_elim.len() == size * size,
            decreases size - j,
        {
            proof {
                lemma_grid_index(i as int, j as int, size as int, size as int);
            }
            acc = ops.sub(acc, ops.mul(x[j], a_elim[i * size + j]));
            j = j + 1;
        }
        proof {
            lemma_grid_index(i as int, i as int, size as int, size as int);
        }
        x[i] = ops.div(acc, a_elim[i * size + i]);
        down = down - 1;
    }
    x
}

/// Least squares through the normal equations: forms `AᵗA` and `Aᵗb` for the
/// row-major `size_a1 × size_a2` design matrix and solves the square system
/// by Gauss elimination.
pub fn lsqsolve_sub<O: RealOps>(
    ops: &O,
    size_a1: usize,
    size_a2: usize,
    a: &Vec<u64>,
    b: &Vec<u64>,
) -> (r: Vec<u64>)
    requires
        a.len() == size_a1 * size_a2,
        b.len() >= size_a1,
        size_a2 * size_a2 <= usize::MAX,
    ensures
        r.len() == size_a2,
{
    proof {
        assert(size_a2 * size_a1 == size_a1 * size_a2) by (nonlinear_arith);
    }
    let mut at: Vec<u64> = zeros(size_a2 * size_a1);
    for i in 0..size_a1
        invariant
            a.len() == size_a1 * size_a2,
            at.len() == size_a2 * size_a1,
    {
        for j in 0..size_a2
            invariant
                i < size_a1,
                a.len() == size_a1 * size_a2,
                at.len() == size_a2 * size_a1,
        {
            proof {
                lemma_grid_index(i as int, j as int, size_a1 as int, size_a2 as int);
                lemma_grid_index(j as int, i as int, size_a2 as int, size_a1 as int);
            }
            let v: u64 = a[i * size_a2 + j];
            at[j * size_a1 + i] = v;
        }
    }
    let ata: Vec<u64> = matrix_multiply(ops, size_a2, size_a1, &at, size_a1, size_a2, a);
    let atb: Vec<u64> = matrix_times_vector(ops, size_a2, size_a1, &at, size_a1, b);
    gauss_elimination(ops, size_a2, ata, atb)
}

/// Fits the engine's fixed two-piece cubic B-spline to the series (knots at
/// the ends and the midpoint), by building the banded design matrix of the
/// four local basis functions, solving the normal equations, and evaluating
/// the fitted piecewise polynomial back on the sample positions. The result
/// is the local-trend estimate, one value per sample.
pub fn splinefit<O: RealOps>(ops: &O, a: &Vec<u64>) -> (r: Vec<u64>)
    requires
        2 <= a.len() <= crate::spectral::MAX_SERIES_LEN,
    ensures
        r.len() == a.len(),
{
    let n: usize = a.len();
    let deg: usize = 3;
    let n_spline: usize = 4;
    let pieces_ext: usize = 8;

    let break0: usize = 0;
    let break1: usize = n / 2 - 1;
    let break2: usize = n - 1;

    let h00: usize = break1 - break0;
    let h01: usize = break2 - break1;

    // Knot spans mirrored to the left and right of the data.
    let hl_cs0: usize = h01;
    let hl_cs1: usize = hl_cs0 + h00;
    let hl_cs2: usize = hl_cs1 + h01;
    let hr_cs0: usize = h00;
    let hr_cs1: usize = hr_cs0 + h01;
    let hr_cs2: usize = hr_cs1 + h00;

    // The extended break positions: three mirrored on each side.
    let mut breaks_ext: Vec<u64> = zeros(3 * deg);
    let b0f: u64 = ops.from_usize(break0);
    let b2f: u64 = ops.from_usize(break2);
    breaks_ext[0] = ops.sub(b0f, ops.from_usize(hl_cs2));
    breaks_ext[1] = ops.sub(b0f, ops.from_usize(hl_cs1));
    breaks_ext[2] = ops.sub(b0f, ops.from_usize(hl_cs0));
    breaks_ext[3] = ops.from_usize(break0);
    breaks_ext[4] = ops.from_usize(break1);
    breaks_ext[5] = ops.from_usize(break2);
    breaks_ext[6] = ops.add(b2f, ops.from_usize(hr_cs0));
    breaks_ext[7] = ops.add(b2f, ops.from_usize(hr_cs1));
    breaks_ext[8] = ops.add(b2f, ops.from_usize(hr_cs2));

    let mut h_ext: Vec<u64> = zeros(3 * deg - 1);
    for i in 0..3 * deg - 1
        invariant
            h_ext.len() == 3 * deg - 1,
            breaks_ext.len() == 3 * deg,
            deg == 3,
    {
        let v: u64 = ops.sub(breaks_ext[i + 1], breaks_ext[i]);
        h_ext[i] = v;
    }

    // Antiderivative recurrence for the B-spline basis coefficients, over
    // the extended pieces: `coefs` is 32 × 5 flat, `q` is 4 × 8 flat.
    let mut coefs: Vec<u64> = zeros(n_spline * pieces_ext * (n_spline + 1));
    let mut idx: usize = 0;
    while idx < n_spline * pieces_ext
        invariant
            n_spline == 4,
            pieces_ext == 8,
            coefs.len() == 160,
            idx % 4 == 0,
            idx <= 32,
        decreases 32 - idx,
    {
        coefs[idx * 5] = bits::ONE_BITS;
        idx = idx + 4;
    }

    let mut ii: Vec<usize> = uzeros((deg + 1) * pieces_ext);
    for i in 0..pieces_ext
        invariant
            deg == 3,
            pieces_ext == 8,
            ii.len() == 32,
            forall|k: int| 0 <= k < 32 ==> #[trigger] ii@[k] < 8,
    {
        let r0: usize = if i < pieces_ext - 1 {
            i
        } else {
            pieces_ext - 1
        };
        let r1: usize = if i + 1 < pieces_ext - 1 {
            i + 1
        } else {
            pieces_ext - 1
        };
        let r2: usize = if i + 2 < pieces_ext - 1 {
            i + 2
        } else {
            pieces_ext - 1
        };
        let r3: usize = if i + 3 < pieces_ext - 1 {
            i + 3
        } else {
            pieces_ext - 1
        };
        ii[i] = r0;
        ii[8 + i] = r1;
        ii[16 + i] = r2;
        ii[24 + i] = r3;
    }

    let mut h_grid: Vec<u64> = zeros(n_spline * pieces_ext);
    for i in 0..n_spline * pieces_ext
        invariant
            n_spline == 4,
            pieces_ext == 8,
            h_grid.len() == 32,
            h_ext.len() == 8,
            ii.len() == 32,
            forall|k: int| 0 <= k < 32 ==> #[trigger] ii@[k] < 8,
    {
        let flat: usize = ii[(i % 4) * 8 + i / 4];
        let v: u64 = h_ext[flat];
        h_grid[i] = v;
    }

    let mut q: Vec<u64> = zeros(n_spline * pieces_ext);
    let mut step: usize = 1;
    while step < n_spline
        invariant
            n_spline == 4,
            pieces_ext == 8,
            1 <= step <= 4,
            coefs.len() == 160,
            q.len() == 32,
            h_grid.len() == 32,
        decreases n_spline - step,
    {
        for j in 0..step
            invariant
                step <= 4,
                coefs.len() == 160,
                h_grid.len() == 32,
        {
            for k in 0..32usize
                invariant
                    j < step <= 4,
                    coefs.len() == 160,
                    h_grid.len() == 32,
            {
                let v: u64 = ops.mul(coefs[k * 5 + j], ops.div(h_grid[k], ops.from_usize(step - j)));
                coefs[k * 5 + j] = v;
            }
        }
        for j in 0..32usize
            invariant
                step <= 4,
                coefs.len() == 160,
                q.len() == 32,
        {
            let mut acc: u64 = bits::ZERO_BITS;
            for k in 0..4usize
                invariant
                    j < 32,
                    coefs.len() == 160,
            {
                acc = ops.add(acc, coefs[j * 5 + k]);
            }
            q[(j % 4) * 8 + j / 4] = acc;
        }
        for j in 0..8usize
            invariant
                q.len() == 32,
        {
            let mut k: usize = 1;
            while k < 4
                invariant
                    j < 8,
                    1 <= k <= 4,
                    q.len() == 32,
                decreases 4 - k,
            {
                let v: u64 = ops.add(q[k * 8 + j], q[(k - 1) * 8 + j]);
                q[k * 8 + j] = v;
                k = k + 1;
            }
        }
        for j in 0..32usize
            invariant
                step < 4,
                coefs.len() == 160,
                q.len() == 32,
        {
            if j % 4 == 0 {
                coefs[j * 5 + step] = bits::ZERO_BITS;
            } else {
                let v: u64 = q[(j % 4 - 1) * 8 + j / 4];
                coefs[j * 5 + step] = v;
            }
        }
        let mut fmax: Vec<u64> = zeros(32);
        for j in 0..8usize
            invariant
                fmax.len() == 32,
                q.len() == 32,
        {
            for k in 0..4usize
                invariant
                    j < 8,
                    fmax.len() == 32,
                    q.len() == 32,
            {
                let v: u64 = q[3 * 8 + j];
                fmax[j * 4 + k] = v;
            }
        }
        for j in 0..step + 1
            invariant
                step < 4,
                coefs.len() == 160,
                fmax.len() == 32,
        {
            for k in 0..32usize
                invariant
                    j <= step < 4,
                    coefs.len() == 160,
                    fmax.len() == 32,
            {
                let v: u64 = ops.div(coefs[k * 5 + j], fmax[k]);
                coefs[k * 5 + j] = v;
            }
        }
        // Difference against the neighbouring antiderivative.
        for j in 0..29usize
            invariant
                step < 4,
                coefs.len() == 160,
        {
            for k in 0..step + 1
                invariant
                    j < 29,
                    step < 4,
                    k <= step + 1,
                    coefs.len() == 160,
            {
                let v: u64 = ops.sub(coefs[j * 5 + k], coefs[(j + 3) * 5 + k]);
                coefs[j * 5 + k] = v;
            }
        }
        let mut j2: usize = 0;
        while j2 < 32
            invariant
                step < 4,
                coefs.len() == 160,
                j2 % 4 == 0,
                j2 <= 32,
            decreases 32 - j2,
        {
            coefs[j2 * 5 + step] = bits::ZERO_BITS;
            j2 = j2 + 4;
        }
        step = step + 1;
    }

    // Rescale each column from antiderivative to derivative order.
    let mut scale: Vec<u64> = Vec::new();
    for j in 0..32usize
        invariant
            scale.len() == j,
    {
        scale.push(bits::ONE_BITS);
    }
    for i in 0..n_spline - 1
        invariant
            n_spline == 4,
            scale.len() == 32,
            coefs.len() == 160,
            h_grid.len() == 32,
    {
        for j in 0..32usize
            invariant
                scale.len() == 32,
                h_grid.len() == 32,
        {
            let v: u64 = ops.div(scale[j], h_grid[j]);
            scale[j] = v;
        }
        for j in 0..32usize
            invariant
                i < 3,
                scale.len() == 32,
                coefs.len() == 160,
        {
            let col: usize = 3 - (i + 1);
            let v: u64 = ops.mul(coefs[j * 5 + col], scale[j]);
            coefs[j * 5 + col] = v;
        }
    }

    // Pick out the four basis functions local to each of the two pieces.
    let mut jj: Vec<usize> = uzeros(n_spline * 2);
    jj[0] = 4;
    jj[1] = 8;
    jj[2] = 3;
    jj[3] = 3;
    jj[4] = 3;
    jj[5] = 3;
    jj[6] = 3;
    jj[7] = 3;
    let mut i2: usize = 1;
    while i2 < 4
        invariant
            1 <= i2 <= 4,
            jj.len() == 8,
            forall|k: int| 0 <= k < 8 ==> 1 <= #[trigger] jj@[k] <= 17,
        decreases 4 - i2,
    {
        let s0: usize = jj[i2 * 2] + jj[(i2 - 1) * 2];
        let s1: usize = jj[i2 * 2 + 1] + jj[(i2 - 1) * 2 + 1];
        jj[i2 * 2] = if s0 <= 17 {
            s0
        } else {
            17
        };
        jj[i2 * 2 + 1] = if s1 <= 17 {
            s1
        } else {
            17
        };
        i2 = i2 + 1;
    }

    let mut coefs_out: Vec<u64> = zeros(n_spline * 2 * n_spline);
    for i in 0..8usize
        invariant
            coefs_out.len() == 32,
            coefs.len() == 160,
            jj.len() == 8,
            forall|k: int| 0 <= k < 8 ==> 1 <= #[trigger] jj@[k] <= 17,
    {
        let jj_flat: usize = jj[(i % 4) * 2 + i / 4] - 1;
        for j in 0..4usize
            invariant
                i < 8,
                jj_flat <= 16,
                coefs_out.len() == 32,
                coefs.len() == 160,
        {
            let v: u64 = coefs[jj_flat * 5 + j];
            coefs_out[i * 4 + j] = v;
        }
    }

    // Evaluate the four local basis functions at every sample position.
    let mut xs_b: Vec<usize> = uzeros(n * n_spline);
    let mut index_b: Vec<usize> = uzeros(n * n_spline);
    let mut break_ind: usize = 1;
    for i in 0..n
        invariant
            n_spline == 4,
            n >= 2,
            xs_b.len() == n * 4,
            index_b.len() == n * 4,
            1 <= break_ind <= 2,
            break_ind == 2 ==> break1 <= i,
            break1 == n / 2 - 1,
            forall|k: int| 0 <= k < n * 4 ==> #[trigger] index_b@[k] < 8,
    {
        if i >= break1 && break_ind < 2 {
            break_ind = 2;
        }
        let base: usize = if break_ind == 2 {
            break1
        } else {
            0
        };
        for j in 0..4usize
            invariant
                i < n,
                base <= i,
                break_ind == 1 || break_ind == 2,
                base == if break_ind == 2 {
                    break1
                } else {
                    0
                },
                xs_b.len() == n * 4,
                index_b.len() == n * 4,
                forall|k: int| 0 <= k < n * 4 ==> #[trigger] index_b@[k] < 8,
        {
            proof {
                lemma_grid_index(i as int, j as int, n as int, 4);
            }
            xs_b[i * 4 + j] = i - base;
            index_b[i * 4 + j] = j + (break_ind - 1) * 4;
        }
    }

    let mut v_b: Vec<u64> = zeros(n * n_spline);
    for i in 0..n * 4
        invariant
            v_b.len() == n * 4,
            index_b.len() == n * 4,
            coefs_out.len() == 32,
            forall|k: int| 0 <= k < n * 4 ==> #[trigger] index_b@[k] < 8,
    {
        let v: u64 = coefs_out[index_b[i] * 4];
        v_b[i] = v;
    }
    for i in 1..4usize
        invariant
            v_b.len() == n * 4,
            xs_b.len() == n * 4,
            index_b.len() == n * 4,
            coefs_out.len() == 32,
            forall|k: int| 0 <= k < n * 4 ==> #[trigger] index_b@[k] < 8,
    {
        for j in 0..n * 4
            invariant
                i < 4,
                v_b.len() == n * 4,
                xs_b.len() == n * 4,
                index_b.len() == n * 4,
                coefs_out.len() == 32,
                forall|k: int| 0 <= k < n * 4 ==> #[trigger] index_b@[k] < 8,
        {
            let v: u64 = ops.add(
                ops.mul(v_b[j], ops.from_usize(xs_b[j])),
                coefs_out[index_b[j] * 4 + i],
            );
            v_b[j] = v;
        }
    }

    // Scatter the basis values into the banded design matrix (five columns:
    // four local functions plus the knot shift between the two pieces).
    let mut design: Vec<u64> = zeros(n * (n_spline + 1));
    let mut second: usize = 0;
    for i in 0..n * 4
        invariant
            n >= 2,
            design.len() == n * 5,
            v_b.len() == n * 4,
            second <= 1,
            break1 == n / 2 - 1,
    {
        if i / 4 >= break1 {
            second = 1;
        }
        proof {
            lemma_grid_index((i / 4) as int, (i % 4 + second) as int, n as int, 5);
        }
        let col: usize = i % 4 + second;
        let v: u64 = v_b[i];
        design[(i / 4) * 5 + col] = v;
    }

    let x: Vec<u64> = lsqsolve_sub(ops, n, 5, &design, a);

    // Recombine the solved weights into per-piece polynomial coefficients.
    let mut cmat: Vec<u64> = zeros(5 * 8);
    for i in 0..32usize
        invariant
            cmat.len() == 40,
            coefs_out.len() == 32,
    {
        let c_row: usize = i % 4 + (i / 4) % 2;
        let c_col: usize = i / 4;
        let coef_row: usize = i % 8;
        let coef_col: usize = i / 8;
        let v: u64 = coefs_out[coef_row * 4 + coef_col];
        cmat[c_row * 8 + c_col] = v;
    }

    let mut coefs_spline: Vec<u64> = zeros(2 * 4);
    for i in 0..8usize
        invariant
            coefs_spline.len() == 8,
            cmat.len() == 40,
            x.len() == 5,
    {
        let coef_col: usize = i / 2;
        let coef_row: usize = i % 2;
        for j in 0..5usize
            invariant
                i < 8,
                coef_col == i / 2,
                coef_row == i % 2,
                coefs_spline.len() == 8,
                cmat.len() == 40,
                x.len() == 5,
        {
            let v: u64 = ops.add(coefs_spline[coef_row * 4 + coef_col], ops.mul(cmat[j * 8 + i], x[j]));
            coefs_spline[coef_row * 4 + coef_col] = v;
        }
    }

    // Evaluate the fitted piecewise cubic at every sample position.
    let mut y_out: Vec<u64> = zeros(n);
    for i in 0..n
        invariant
            n >= 2,
            y_out.len() == n,
            coefs_spline.len() == 8,
            break1 == n / 2 - 1,
    {
        let sh: usize = if i < break1 {
            0
        } else {
            1
        };
        let v: u64 = coefs_spline[sh * 4];
        y_out[i] = v;
    }
    for i in 1..4usize
        invariant
            n >= 2,
            y_out.len() == n,
            coefs_spline.len() == 8,
            break1 == n / 2 - 1,
    {
        for j in 0..n
            invariant
                i < 4,
                y_out.len() == n,
                coefs_spline.len() == 8,
                break1 == n / 2 - 1,
                break1 < n,
        {
            let sh: usize = if j < break1 {
                0
            } else {
                1
            };
            let pos: usize = j - break1 * sh;
            let v: u64 = ops.add(
                ops.mul(y_out[j], ops.from_usize(pos)),
                coefs_spline[sh * 4 + i],
            );
            y_out[j] = v;
        }
    }
    y_out
}

} // verus!
