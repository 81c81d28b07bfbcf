use spectrum_viz::band_map::init_band_indices_cache;

fn log_spaced_edges(band_count: usize) -> Vec<u64> {
    let log_min = 20.0f32.log10();
    let log_max = 20000.0f32.log10();
    let mut edges = Vec::new();
    for k in 0..=band_count {
        let freq = 10f32.powf(log_min + (log_max - log_min) * (k as f32 / band_count as f32));
        edges.push((freq as f64 * 1000.0) as u64);
    }
    edges
}

#[test]
fn band_table_exact_entries() {
    let mut cache = Vec::new();
    let edges = vec![20_000u64, 100_000, 1_000_000, 30_000_000];
    init_band_indices_cache(&mut cache, &edges, 48000, 4096);
    assert_eq!(cache, vec![(1, 8), (8, 85), (85, 2048)]);
}

#[test]
fn band_table_clamps_empty_band() {
    let mut cache = Vec::new();
    init_band_indices_cache(&mut cache, &vec![0u64, 0], 48000, 4096);
    assert_eq!(cache, vec![(1, 2)]);
}

#[test]
fn band_table_no_edges_is_empty() {
    let mut cache = Vec::new();
    init_band_indices_cache(&mut cache, &vec![], 48000, 4096);
    assert!(cache.is_empty());
}

#[test]
fn band_table_valid_for_log_spacing() {
    for &fft_size in &[1024usize, 2048, 4096] {
        for &bands in &[32usize, 64] {
            let mut cache = Vec::new();
            init_band_indices_cache(&mut cache, &log_spaced_edges(bands), 48000, fft_size);
            assert_eq!(cache.len(), bands);
            for (i, &(start, end)) in cache.iter().enumerate() {
                assert!(1 <= start && start < end && end <= fft_size / 2);
                if i > 0 {
                    assert!(cache[i - 1].0 <= start);
                }
            }
        }
    }
}

#[test]
fn band_table_second_init_is_noop() {
    let edges = log_spaced_edges(64);
    let mut first = Vec::new();
    init_band_indices_cache(&mut first, &edges, 48000, 4096);
    let snapshot = first.clone();
    init_band_indices_cache(&mut first, &vec![1_000_000u64, 2_000_000], 44100, 1024);
    assert_eq!(first, snapshot);
    let mut second = Vec::new();
    init_band_indices_cache(&mut second, &edges, 48000, 4096);
    assert_eq!(first, second);
}
