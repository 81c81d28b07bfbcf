use rustfft::num_complex::Complex;
use rustfft::FftPlanner;
use spectrum_viz::analysis::{
    apply_band_gain_compensation, band_energies, compute_magnitudes, improved_normalize_spectrum,
    isqrt, s_curve_enhancement, BinValue, SpectralAnalyzer, LEVEL_MAX,
};

fn log_spaced_edges(band_count: usize) -> Vec<u64> {
    let log_min = 20.0f32.log10();
    let log_max = 20000.0f32.log10();
    let mut edges = Vec::new();
    for k in 0..=band_count {
        let freq = 10f32.powf(log_min + (log_max - log_min) * (k as f32 / band_count as f32));
        edges.push((freq as f64 * 1000.0) as u64);
    }
    edges
}

fn fft_bins(samples: &[f32]) -> Vec<BinValue> {
    let mut planner = FftPlanner::new();
    let fft = planner.plan_fft_forward(samples.len());
    let mut buffer: Vec<Complex<f32>> = samples.iter().map(|&s| Complex::new(s, 0.0)).collect();
    fft.process(&mut buffer);
    buffer
        .iter()
        .map(|c| BinValue { re: (c.re * 65536.0) as i32, im: (c.im * 65536.0) as i32 })
        .collect()
}

#[test]
fn magnitudes_sum_squares() {
    let bins = vec![BinValue { re: 3, im: 4 }, BinValue { re: 1, im: 1 }, BinValue { re: -2, im: 0 }];
    assert_eq!(compute_magnitudes(&bins, 0, 3), 31);
    assert_eq!(compute_magnitudes(&bins, 1, 3), 6);
    assert_eq!(compute_magnitudes(&bins, 2, 2), 0);
}

#[test]
fn magnitudes_extreme_bin() {
    let bins = vec![BinValue { re: i32::MIN, im: i32::MIN }; 3];
    assert_eq!(compute_magnitudes(&bins, 0, 3), 3u128 << 63);
}

#[test]
fn isqrt_exact_values() {
    assert_eq!(isqrt(0), 0);
    assert_eq!(isqrt(1), 1);
    assert_eq!(isqrt(15), 3);
    assert_eq!(isqrt(16), 4);
    assert_eq!(isqrt(17), 4);
    assert_eq!(isqrt(u128::MAX), u64::MAX);
}

#[test]
fn band_energies_rms_and_empty_band() {
    let mut bins = vec![BinValue { re: 0, im: 0 }; 4];
    bins[1] = BinValue { re: 3, im: 4 };
    let table = vec![(1usize, 2usize), (0, 4), (2, 2)];
    assert_eq!(band_energies(&bins, &table), vec![5, 2, 0]);
}

#[test]
fn gain_attenuates_low_and_boosts_high() {
    let mut bands = vec![1000u64; 10];
    apply_band_gain_compensation(&mut bands);
    assert_eq!(bands, vec![400, 600, 800, 1000, 1000, 1000, 1000, 1000, 1000, 1150]);
}

#[test]
fn gain_saturates_at_largest_value() {
    let mut bands = vec![u64::MAX; 10];
    apply_band_gain_compensation(&mut bands);
    assert_eq!(bands[0], 7378697629483820646);
    assert_eq!(bands[5], u64::MAX);
    assert_eq!(bands[9], u64::MAX);
}

#[test]
fn s_curve_exact_values() {
    assert_eq!(s_curve_enhancement(0), 0);
    assert_eq!(s_curve_enhancement(50_000), 5_000);
    assert_eq!(s_curve_enhancement(99_999), 9_999);
    assert_eq!(s_curve_enhancement(100_000), 10_000);
    assert_eq!(s_curve_enhancement(500_000), 255_000);
    assert_eq!(s_curve_enhancement(900_000), 990_000);
    assert_eq!(s_curve_enhancement(900_001), 900_005);
    assert_eq!(s_curve_enhancement(1_000_000), 1_400_000);
}

#[test]
fn normalize_uses_percentile_of_sorted_values() {
    let bands: Vec<u64> = (1..=20u64).rev().map(|k| k * 10).collect();
    let levels = improved_normalize_spectrum(&bands);
    assert_eq!(levels.len(), 20);
    assert_eq!(levels[0], 1_400_000);
    assert_eq!(levels[1], 1_150_000);
    assert_eq!(levels[2], 990_000);
    assert_eq!(levels[10], 255_000);
    assert_eq!(levels[19], 5_000);
}

#[test]
fn normalize_levels_stay_bounded() {
    let bands: Vec<u64> = (0..64u64).map(|k| (k * 7919) % 1000 + k * k * k).collect();
    let levels = improved_normalize_spectrum(&bands);
    assert_eq!(levels.len(), 64);
    assert!(levels.iter().all(|&v| v <= LEVEL_MAX));
    assert!(levels.iter().any(|&v| v == LEVEL_MAX));
}

#[test]
fn normalize_zero_spectrum_stays_zero() {
    assert_eq!(improved_normalize_spectrum(&vec![0u64; 8]), vec![0u32; 8]);
}

#[test]
fn silence_gives_zero_spectrum() {
    let analyzer = SpectralAnalyzer::new(&log_spaced_edges(64), 48000, 4096);
    let bins = fft_bins(&vec![0.0f32; 4096]);
    assert_eq!(analyzer.analyze(&bins), vec![0u32; 64]);
}

#[test]
fn sine_peaks_in_band_holding_its_bin() {
    let edges = log_spaced_edges(64);
    let analyzer = SpectralAnalyzer::new(&edges, 48000, 4096);
    let samples: Vec<f32> = (0..4096)
        .map(|n| (2.0 * std::f64::consts::PI * 1000.0 * n as f64 / 48000.0).sin() as f32)
        .collect();
    let levels = analyzer.analyze(&fft_bins(&samples));
    let mut table = Vec::new();
    spectrum_viz::band_map::init_band_indices_cache(&mut table, &edges, 48000, 4096);
    let target = 1000.0 / (48000.0 / 4096.0);
    let band = table
        .iter()
        .position(|&(s, e)| (s as f64) <= target && target < e as f64)
        .unwrap();
    let peak = *levels.iter().max().unwrap();
    assert_eq!(levels[band], peak);
    assert!(table[band].0 <= 85 && 85 < table[band].1);
    assert!(levels[0] < peak);
}
