use catch22::arith::RealOps;
use catch22::bits::{fabs, flt, is_finite, sanitize, tle, NAN_BITS, ONE_BITS, ZERO_BITS};
use catch22::features::{
    co_first_min_ac, co_trev_1_num, sb_binary_stats_diff_longstretch0,
    sb_binary_stats_mean_longstretch1,
};
use catch22::sort::sort_samples;
use catch22::spectral::{autocorr, first_zero, first_zero_scan, welch};
use catch22::spline::{gauss_elimination, matrix_multiply, matrix_times_vector, splinefit};
use catch22::statistics::{
    coarsegrain, corr, cov, diff, f_entropy, grain_labels, histbinassign, histcount_edges,
    histcounts, linreg, linspace, mean, median, norm, num_bins_auto, quantile, slope, std_dev,
};
use catch22::{compute, compute_all, compute_catch, zscore, FeatureError, N_CAT};
use rustfft::algorithm::Radix4;
use rustfft::num_complex::Complex;
use rustfft::{Fft, FftDirection};

struct StdOps;

impl RealOps for StdOps {
    fn add(&self, a: u64, b: u64) -> u64 {
        (f64::from_bits(a) + f64::from_bits(b)).to_bits()
    }
    fn sub(&self, a: u64, b: u64) -> u64 {
        (f64::from_bits(a) - f64::from_bits(b)).to_bits()
    }
    fn mul(&self, a: u64, b: u64) -> u64 {
        (f64::from_bits(a) * f64::from_bits(b)).to_bits()
    }
    fn div(&self, a: u64, b: u64) -> u64 {
        (f64::from_bits(a) / f64::from_bits(b)).to_bits()
    }
    fn sqrt(&self, a: u64) -> u64 {
        f64::from_bits(a).sqrt().to_bits()
    }
    fn ln(&self, a: u64) -> u64 {
        f64::from_bits(a).ln().to_bits()
    }
    fn exp(&self, a: u64) -> u64 {
        f64::from_bits(a).exp().to_bits()
    }
    fn powf(&self, a: u64, b: u64) -> u64 {
        f64::from_bits(a).powf(f64::from_bits(b)).to_bits()
    }
    fn floor(&self, a: u64) -> u64 {
        f64::from_bits(a).floor().to_bits()
    }
    fn ceil(&self, a: u64) -> u64 {
        f64::from_bits(a).ceil().to_bits()
    }
    fn to_usize(&self, a: u64) -> usize {
        f64::from_bits(a) as usize
    }
    fn from_usize(&self, n: usize) -> u64 {
        (n as f64).to_bits()
    }
    fn fft(&self, re: &Vec<u64>, im: &Vec<u64>, inverse: bool) -> (Vec<u64>, Vec<u64>) {
        let n = re.len();
        if n == 0 || n != im.len() || n & (n - 1) != 0 {
            return (re.clone(), im.clone());
        }
        let mut buf: Vec<Complex<f64>> = (0..n)
            .map(|i| Complex::new(f64::from_bits(re[i]), f64::from_bits(im[i])))
            .collect();
        let dir = if inverse {
            FftDirection::Inverse
        } else {
            FftDirection::Forward
        };
        let plan = Radix4::new(n, dir);
        plan.process(&mut buf);
        (
            buf.iter().map(|c| c.re.to_bits()).collect(),
            buf.iter().map(|c| c.im.to_bits()).collect(),
        )
    }
}

fn bits_of(v: &[f64]) -> Vec<u64> {
    v.iter().map(|x| x.to_bits()).collect()
}

fn val(b: u64) -> f64 {
    f64::from_bits(b)
}

fn ramp10() -> Vec<u64> {
    bits_of(&[1.0, 2.0, 3.0, 4.0, 5.0, 6.0, 7.0, 8.0, 9.0, 10.0])
}

/// A fixed, irregular test series (a clipped sine with a trend, written out
/// so the tests are exactly reproducible).
fn wavy() -> Vec<u64> {
    bits_of(&[
        0.1, 1.3, 2.9, 1.1, -0.4, -1.8, -0.9, 0.7, 2.2, 3.0, 1.9, 0.2, -1.1, -1.6, -0.3, 1.4,
        2.8, 3.3, 2.0, 0.5, -0.9, -1.7, -0.8, 0.9, 2.4, 3.1, 2.1, 0.4, -1.0, -1.9, -0.6, 1.0,
        2.5, 3.4, 2.2, 0.6, -0.8, -1.5, -0.2, 1.5, 2.9, 3.5, 2.3, 0.8, -0.7, -1.4, -0.1, 1.6,
        3.0, 3.6, 2.4, 0.9, -0.5, -1.3, 0.0, 1.7, 3.1, 3.7, 2.5, 1.0, -0.4, -1.2, 0.1, 1.8,
        3.2, 3.8, 2.6, 1.1, -0.3, -1.1, 0.2, 1.9, 3.3, 3.9, 2.7, 1.2, -0.2, -1.0, 0.3, 2.0,
        3.4, 4.0, 2.8, 1.3, -0.1, -0.9, 0.4, 2.1, 3.5, 4.1, 2.9, 1.4, 0.0, -0.8, 0.5, 2.2,
        3.6, 4.2, 3.0, 1.5,
    ])
}

#[test]
fn test_catch22() {
    let time_series = vec![1.0, 2.0, 3.0, 4.0, 5.0, 6.0, 7.0, 8.0, 9.0, 10.0];
    let n_features = 22;
    let ops = StdOps;
    let series = bits_of(&time_series);
    let features = (0..n_features)
        .map(|i| val(compute(&ops, &series, i).unwrap()))
        .collect::<Vec<_>>();
    println!("Catch22 features: {:?}", features);
}

#[test]
fn test_every_feature_is_finite() {
    let ops = StdOps;
    let inputs: Vec<Vec<u64>> = vec![
        Vec::new(),
        bits_of(&[3.25]),
        bits_of(&[7.0, 7.0, 7.0, 7.0, 7.0]),
        ramp10(),
        wavy(),
        bits_of(&[f64::NAN, 1.0, f64::INFINITY, -2.0, f64::NEG_INFINITY, 0.5]),
    ];
    for series in &inputs {
        for i in 0..N_CAT {
            let r = compute(&ops, series, i).unwrap();
            assert!(f64::from_bits(r).is_finite());
            assert!(is_finite(r));
        }
    }
}

#[test]
fn test_invalid_index_is_rejected() {
    let ops = StdOps;
    let series = ramp10();
    assert_eq!(compute(&ops, &series, N_CAT), Err(FeatureError::InvalidFeatureIndex));
    assert_eq!(compute(&ops, &series, N_CAT + 7), Err(FeatureError::InvalidFeatureIndex));
    for i in 0..N_CAT {
        assert!(compute(&ops, &series, i).is_ok());
    }
}

#[test]
fn test_compute_is_deterministic() {
    let ops = StdOps;
    for series in [ramp10(), wavy()] {
        let first = compute_all(&ops, &series);
        let second = compute_all(&ops, &series);
        assert_eq!(first, second);
        for i in 0..N_CAT {
            assert_eq!(compute(&ops, &series, i).unwrap(), first[i]);
        }
    }
}

#[test]
fn test_constant_series_features() {
    let ops = StdOps;
    let series = bits_of(&[4.5; 25]);
    assert_eq!(val(std_dev(&ops, &series)), 0.0);
    let features = compute_all(&ops, &series);
    for i in 0..N_CAT {
        assert!(val(features[i]).is_finite());
    }
    // The algorithms whose normalization degenerates on a constant series
    // come back as exactly zero through the boundary rule.
    assert_eq!(val(features[4]), 0.0);
    assert_eq!(val(features[16]), 0.0);
    assert_eq!(val(features[17]), 0.0);
    assert_eq!(val(features[23]), 0.0);
    // The baseline mean survives untouched.
    assert_eq!(val(features[22]), 4.5);
}

#[test]
fn test_ramp_moments() {
    let ops = StdOps;
    let series = ramp10();
    assert_eq!(val(mean(&ops, &series)), 5.5);
    assert!((val(std_dev(&ops, &series)) - 3.0276503540974917).abs() < 1e-12);
    assert!((val(slope(&ops, &series)) - 1.0).abs() < 1e-12);
    assert_eq!(val(compute_catch(&ops, &series, 23)), 5.5);
}

#[test]
fn test_autocorr_normalization() {
    let ops = StdOps;
    for series in [ramp10(), wavy()] {
        let ac = autocorr(&ops, &series);
        assert_eq!(ac[0], ONE_BITS);
        assert_eq!(val(ac[0]), 1.0);
        for k in 0..ac.len() {
            assert!(val(ac[k]).abs() <= 1.0 + 1e-9);
        }
    }
}

#[test]
fn test_quantile_median_consistency() {
    let ops = StdOps;
    let odd = bits_of(&[9.0, 1.0, 4.0, 7.0, 2.0]);
    let mut sorted_odd = vec![9.0, 1.0, 4.0, 7.0, 2.0];
    sorted_odd.sort_by(|a, b| a.partial_cmp(b).unwrap());
    assert_eq!(val(median(&ops, &odd)), sorted_odd[2]);
    assert_eq!(val(quantile(&ops, &odd, 0.5f64.to_bits())), sorted_odd[2]);

    let even = bits_of(&[8.0, 3.0, 5.0, 1.0, 9.0, 4.0]);
    let mut sorted_even = vec![8.0, 3.0, 5.0, 1.0, 9.0, 4.0];
    sorted_even.sort_by(|a, b| a.partial_cmp(b).unwrap());
    let expected = (sorted_even[2] + sorted_even[3]) / 2.0;
    assert_eq!(val(median(&ops, &even)), expected);
    assert_eq!(val(quantile(&ops, &even, 0.5f64.to_bits())), expected);

    // Tail guards return the extremes.
    assert_eq!(val(quantile(&ops, &even, 0.0f64.to_bits())), 1.0);
    assert_eq!(val(quantile(&ops, &even, 1.0f64.to_bits())), 9.0);
}

#[test]
fn test_histcounts_sums_to_length() {
    let ops = StdOps;
    let series = wavy();
    for bins in [1usize, 2, 5, 10, 17] {
        let (counts, edges) = histcounts(&ops, &series, bins);
        assert_eq!(counts.len(), bins);
        assert_eq!(edges.len(), bins + 1);
        let total: usize = counts.iter().sum();
        assert_eq!(total, series.len());
    }
    // The adaptive rule also lands every sample in exactly one bin.
    let (auto_counts, _) = histcounts(&ops, &series, 0);
    let total: usize = auto_counts.iter().sum();
    assert_eq!(total, series.len());
    assert!(num_bins_auto(&ops, &series) >= 1);
}

#[test]
fn test_zscore_round_trip() {
    let ops = StdOps;
    let series = wavy();
    let z = catch22::statistics::zscore(&ops, &series);
    let zm = val(mean(&ops, &z));
    assert!(zm.abs() < 1e-12);
    let zs = val(std_dev(&ops, &z));
    assert!((zs - 1.0).abs() < 1e-12);

    // The crate-root variant agrees with the toolkit's sample-moment one,
    // and maps the empty series to the empty vector.
    let zp = zscore(&ops, &series);
    assert_eq!(zp, z);
    assert_eq!(zscore(&ops, &Vec::new()), Vec::<u64>::new());
}

#[test]
fn test_compute_all_golden() {
    let ops = StdOps;
    let series = ramp10();
    let got = compute_all(&ops, &series);
    assert_eq!(got.len(), N_CAT);
    println!("computed: {:?}", got.iter().map(|&v| val(v)).collect::<Vec<_>>());
    let golden: Vec<f64> = vec![
        0.0, 0.3999999999999999, 5.5, 5.5, 0.0, 2.1678136139474025, 7.0, 1.3862943611198906,
        1.0, 0.0, 0.0, 3.0, 1.0, 0.0, 5.0, 1.5229550675313182, 0.0, 0.0, 0.0, 0.0625,
        0.16666666666666669, 0.0, 5.5, 3.0276503540974917, 1.0,
    ];
    for i in 0..N_CAT {
        let g = golden[i];
        let v = val(got[i]);
        assert!(
            (v - g).abs() <= 1e-8,
            "feature {} drifted: {} vs {}",
            i,
            v,
            g
        );
    }
}

#[test]
fn test_first_zero_scan_is_exact() {
    let ac = bits_of(&[1.0, 0.6, 0.2, -0.1, -0.3, 0.4]);
    assert_eq!(first_zero_scan(&ac, 10), 3);
    assert_eq!(first_zero_scan(&ac, 2), 2);
    assert_eq!(first_zero_scan(&ac, 0), 0);
    let all_pos = bits_of(&[1.0, 0.9, 0.8]);
    assert_eq!(first_zero_scan(&all_pos, 10), 3);
    let ops = StdOps;
    let fz = first_zero(&ops, &wavy(), wavy().len());
    assert!(fz >= 1);
}

#[test]
fn test_binning_rules() {
    let a = bits_of(&[0.5, 1.5, 2.5, 9.0, -3.0]);
    let edges = bits_of(&[0.0, 1.0, 2.0, 3.0]);
    // First edge strictly above each sample, 0 when none is.
    assert_eq!(histbinassign(&a, &edges), vec![1, 2, 3, 0, 0]);
    // First edge at or above each sample, counted per edge.
    let counts = histcount_edges(&a, &edges);
    assert_eq!(counts, vec![1, 1, 1, 1]);

    let grained = grain_labels(&bits_of(&[0.5, 1.5, 2.5, 5.0]), &bits_of(&[0.0, 1.0, 2.0, 3.0]), 3);
    assert_eq!(grained, vec![1, 2, 3, 0]);
    // A sample exactly on an interior edge takes the lower bucket.
    let on_edge = grain_labels(&bits_of(&[1.0]), &bits_of(&[0.0, 1.0, 2.0, 3.0]), 3);
    assert_eq!(on_edge, vec![1]);

    let ops = StdOps;
    let labels = coarsegrain(&ops, &ramp10(), 3);
    assert_eq!(labels.len(), 10);
    assert!(labels.iter().all(|&l| 1 <= l && l <= 3));
    assert!(labels[0] == 1 && labels[9] == 3);
}

#[test]
fn test_binary_stretches() {
    let ops = StdOps;
    // Three rises, one fall, four rises: the longest run of falls is 1.
    let s = bits_of(&[1.0, 2.0, 3.0, 4.0, 2.0, 3.0, 4.0, 5.0, 6.0]);
    assert_eq!(val(sb_binary_stats_diff_longstretch0(&ops, &s)), 1.0);
    // Values above the mean (4.625) sit in one run of four.
    let m = bits_of(&[1.0, 2.0, 8.0, 9.0, 8.0, 7.0, 1.0, 1.0]);
    assert_eq!(val(sb_binary_stats_mean_longstretch1(&ops, &m)), 4.0);
}

#[test]
fn test_entropy_and_regression() {
    let ops = StdOps;
    let p = bits_of(&[0.5, 0.5]);
    let h = val(f_entropy(&ops, &p));
    assert!((h - std::f64::consts::LN_2).abs() < 1e-12);

    let x = bits_of(&[1.0, 2.0, 3.0]);
    let y = bits_of(&[3.0, 5.0, 7.0]);
    let (m, b) = linreg(&ops, 3, &x, &y);
    assert_eq!(val(m), 2.0);
    assert_eq!(val(b), 1.0);

    assert_eq!(val(norm(&ops, &bits_of(&[3.0, 4.0]))), 5.0);
    let c = cov(&ops, &x, &y);
    assert_eq!(val(c), 2.0);
    let r = corr(&ops, &x, &x, 2.0f64.to_bits(), 2.0f64.to_bits());
    assert!((val(r) - 1.0).abs() < 1e-12);
}

#[test]
fn test_linear_solver() {
    let ops = StdOps;
    // A diagonal system solves exactly.
    let a = bits_of(&[2.0, 0.0, 0.0, 4.0]);
    let b = bits_of(&[2.0, 8.0]);
    let x = gauss_elimination(&ops, 2, a, b);
    assert_eq!(val(x[0]), 1.0);
    assert_eq!(val(x[1]), 2.0);

    // A 2 by 2 product against the identity.
    let m = bits_of(&[1.0, 2.0, 3.0, 4.0]);
    let eye = bits_of(&[1.0, 0.0, 0.0, 1.0]);
    let p = matrix_multiply(&ops, 2, 2, &m, 2, 2, &eye);
    assert_eq!(p.iter().map(|&v| val(v)).collect::<Vec<_>>(), vec![1.0, 2.0, 3.0, 4.0]);
    let v = matrix_times_vector(&ops, 2, 2, &m, 2, &bits_of(&[1.0, 1.0]));
    assert_eq!(val(v[0]), 3.0);
    assert_eq!(val(v[1]), 7.0);
}

#[test]
fn test_splinefit_reproduces_a_line() {
    let ops = StdOps;
    let series = ramp10();
    let fit = splinefit(&ops, &series);
    assert_eq!(fit.len(), series.len());
    for i in 0..series.len() {
        assert!((val(fit[i]) - val(series[i])).abs() < 1e-6);
    }
}

#[test]
fn test_welch_axes() {
    let ops = StdOps;
    let window = vec![ONE_BITS; 100];
    let (freq, pxx) = welch(&ops, &wavy(), ONE_BITS, &window);
    assert_eq!(freq.len(), pxx.len());
    // One hundred samples pad to one hundred and twenty-eight points.
    assert_eq!(freq.len(), 128 / 2 + 1);
    assert!(freq.len() >= 2);
    assert_eq!(val(freq[0]), 0.0);
    assert!(val(freq[1]) > 0.0);
}

#[test]
fn test_small_utilities() {
    let ops = StdOps;
    let d = diff(&ops, &ramp10());
    assert_eq!(d.len(), 10);
    for i in 0..9 {
        assert_eq!(val(d[i]), 1.0);
    }
    assert_eq!(d[9], ZERO_BITS);

    assert_eq!(val(quantile(&ops, &bits_of(&[6.25]), 0.37f64.to_bits())), 6.25);
    assert_eq!(num_bins_auto(&ops, &Vec::new()), 0);

    let ls = linspace(&ops, 0.0f64.to_bits(), 1.0f64.to_bits(), 5);
    assert_eq!(ls.len(), 5);
    assert_eq!(val(ls[0]), 0.0);
    assert_eq!(val(ls[4]), 1.0);

    let sorted = sort_samples(&bits_of(&[3.0, -1.0, 2.0]));
    assert_eq!(sorted.iter().map(|&v| val(v)).collect::<Vec<_>>(), vec![-1.0, 2.0, 3.0]);

    assert!(catch22::statistics::is_constant(&bits_of(&[2.0, 2.0, 2.0])));
    assert!(!catch22::statistics::is_constant(&bits_of(&[2.0, 2.5])));
    assert!(catch22::statistics::is_constant(&bits_of(&[0.0, -0.0])));

    assert_eq!(sanitize(NAN_BITS), ZERO_BITS);
    assert_eq!(sanitize(f64::INFINITY.to_bits()), ZERO_BITS);
    assert_eq!(sanitize(2.5f64.to_bits()), 2.5f64.to_bits());
    assert!(flt(1.0f64.to_bits(), 2.0f64.to_bits()));
    assert!(!flt(f64::NAN.to_bits(), 2.0f64.to_bits()));
    assert!(tle((-1.0f64).to_bits(), 1.0f64.to_bits()));
    assert_eq!(val(fabs((-3.5f64).to_bits())), 3.5);

    let t = val(co_trev_1_num(&ops, &ramp10()));
    assert_eq!(t, 1.0);
    let fm = val(co_first_min_ac(&ops, &wavy()));
    assert!(fm >= 1.0);
}
