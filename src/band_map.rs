//! Mapping of linear FFT bins onto log-spaced frequency bands.
//!
//! Band boundaries arrive as frequencies in millihertz (their log spacing is
//! computed by the caller); this module turns them into clamped bin ranges.
use vstd::prelude::*;
use vstd::arithmetic::div_mod::lemma_div_is_ordered;
use vstd::arithmetic::mul::lemma_mul_inequality;

verus! {

pub open spec fn min_int(a: int, b: int) -> int {
    if a <= b { a } else { b }
}

pub open spec fn max_int(a: int, b: int) -> int {
    if a >= b { a } else { b }
}

/// The FFT bin that holds a frequency: `freq / (sample_rate / fft_size)`,
/// rounded down, with the frequency given in millihertz.
pub open spec fn raw_bin(freq_mhz: int, sample_rate: int, fft_size: int) -> int {
    (freq_mhz * fft_size) / (sample_rate * 1000)
}

/// First bin of a band: kept off DC and below the last usable bin.
pub open spec fn clamp_start(raw: int, half: int) -> int {
    min_int(max_int(raw, 1), half - 1)
}

/// End bin (exclusive) of a band: at least one bin past the start, at most `half`.
pub open spec fn clamp_end(raw: int, start: int, half: int) -> int {
    min_int(max_int(raw, start + 1), half)
}

/// Number of bands described by a list of band boundaries.
pub open spec fn band_count(edges: Seq<u64>) -> nat {
    if edges.len() == 0 { 0 } else { (edges.len() - 1) as nat }
}

/// Entry `i` of the band table: band `i` spans boundaries `i` and `i + 1`.
pub open spec fn band_entry(edges: Seq<u64>, sample_rate: int, fft_size: int, i: int) -> (usize, usize) {
    let half = fft_size / 2;
    let start = clamp_start(raw_bin(edges[i] as int, sample_rate, fft_size), half);
    let end = clamp_end(raw_bin(edges[i + 1] as int, sample_rate, fft_size), start, half);
    (start as usize, end as usize)
}

/// The whole band table for a list of boundaries.
pub open spec fn band_table(edges: Seq<u64>, sample_rate: int, fft_size: int) -> Seq<(usize, usize)> {
    Seq::new(band_count(edges), |i: int| band_entry(edges, sample_rate, fft_size, i))
}

pub open spec fn edges_sorted(edges: Seq<u64>) -> bool {
    forall|i: int, j: int| 0 <= i <= j < edges.len() ==> edges[i] <= edges[j]
}

/// A table whose bands all cover at least one bin inside `[1, half)`, in
/// non-decreasing order of start bin.
pub open spec fn table_valid(table: Seq<(usize, usize)>, fft_size: int) -> bool {
    &&& forall|i: int| 0 <= i < table.len() ==> {
        &&& 1 <= (#[trigger] table[i]).0
        &&& table[i].0 < table[i].1
        &&& table[i].1 <= fft_size / 2
    }
    &&& forall|i: int, j: int| 0 <= i <= j < table.len() ==> (#[trigger] table[i]).0 <= (#[trigger] table[j]).0
}

proof fn lemma_raw_bin_monotone(a: int, b: int, sample_rate: int, fft_size: int)
    requires
        0 <= a <= b,
        sample_rate > 0,
        fft_size >= 0,
    ensures
        raw_bin(a, sample_rate, fft_size) <= raw_bin(b, sample_rate, fft_size),
{
    lemma_mul_inequality(a, b, fft_size);
    lemma_div_is_ordered(a * fft_size, b * fft_size, sample_rate * 1000);
}

proof fn lemma_product_fits(a: u64, b: usize)
    ensures
        (a as int) * (b as int) <= u128::MAX,
{
    assert((a as int) * (b as int) <= (u64::MAX as int) * (u64::MAX as int)) by (nonlinear_arith)
        requires
            a <= u64::MAX,
            b <= u64::MAX,
    ;
}

/// Every generated table is valid: each band covers at least one bin between
/// DC and the Nyquist bin, and bands come in order of their start bin.
pub proof fn lemma_band_table_valid(edges: Seq<u64>, sample_rate: int, fft_size: int)
    requires
        sample_rate > 0,
        4 <= fft_size <= usize::MAX,
        edges_sorted(edges),
    ensures
        table_valid(band_table(edges, sample_rate, fft_size), fft_size),
{
    let table = band_table(edges, sample_rate, fft_size);
    assert forall|i: int| 0 <= i < table.len() implies {
        &&& 1 <= (#[trigger] table[i]).0
        &&& table[i].0 < table[i].1
        &&& table[i].1 <= fft_size / 2
    } by {
        assert(table[i] == band_entry(edges, sample_rate, fft_size, i));
    }
    assert forall|i: int, j: int| 0 <= i <= j < table.len() implies (#[trigger] table[i]).0 <= (#[trigger] table[j]).0 by {
        lemma_raw_bin_monotone(edges[i] as int, edges[j] as int, sample_rate, fft_size);
        assert(table[i] == band_entry(edges, sample_rate, fft_size, i));
        assert(table[j] == band_entry(edges, sample_rate, fft_size, j));
    }
}

/// What a band cache holds after initialisation: an empty cache receives the
/// table, a filled one keeps what it has.
pub open spec fn cached_table(
    cache: Seq<(usize, usize)>,
    edges: Seq<u64>,
    sample_rate: int,
    fft_size: int,
) -> Seq<(usize, usize)> {
    if cache.len() > 0 { cache } else { band_table(edges, sample_rate, fft_size) }
}

/// Initialising a band cache twice with the same parameters gives the same
/// table as initialising it once, and two fresh caches initialised with the
/// same parameters hold identical tables.
pub proof fn lemma_init_idempotent(
    cache: Seq<(usize, usize)>,
    edges: Seq<u64>,
    sample_rate: int,
    fft_size: int,
)
    ensures
        cached_table(cached_table(cache, edges, sample_rate, fft_size), edges, sample_rate, fft_size)
            == cached_table(cache, edges, sample_rate, fft_size),
        cached_table(Seq::empty(), edges, sample_rate, fft_size) == band_table(edges, sample_rate, fft_size),
{
}

/// Computes the band table once into `cache`; a cache that already holds a
/// table is left as it is.
pub fn init_band_indices_cache(
    cache: &mut Vec<(usize, usize)>,
    edges_mhz: &Vec<u64>,
    sample_rate: u32,
    fft_size: usize,
)
    requires
        sample_rate > 0,
        fft_size >= 2,
    ensures
        final(cache)@ == cached_table(old(cache)@, edges_mhz@, sample_rate as int, fft_size as int),
{
    if cache.len() > 0 {
        return;
    }
    let half: usize = fft_size / 2;
    let divisor: u128 = (sample_rate as u128) * 1000;
    let mut i: usize = 1;
    while i < edges_mhz.len()
        invariant
            1 <= i <= edges_mhz@.len() || edges_mhz@.len() == 0,
            half == fft_size / 2,
            half >= 1,
            divisor == sample_rate * 1000,
            divisor > 0,
            cache@.len() == if edges_mhz@.len() == 0 { 0 } else { i - 1 },
            forall|k: int| 0 <= k < cache@.len() ==> cache@[k] == band_entry(edges_mhz@, sample_rate as int, fft_size as int, k),
        decreases edges_mhz@.len() - i,
    {
        proof {
            lemma_product_fits(edges_mhz@[i - 1], fft_size);
            lemma_product_fits(edges_mhz@[i as int], fft_size);
        }
        let raw_start: u128 = (edges_mhz[i - 1] as u128) * (fft_size as u128) / divisor;
        let raw_end: u128 = (edges_mhz[i] as u128) * (fft_size as u128) / divisor;
        let lower: u128 = if raw_start < 1 { 1 } else { raw_start };
        let start: usize = if lower < (half - 1) as u128 { lower as usize } else { half - 1 };
        let lower_end: u128 = if raw_end < (start + 1) as u128 { (start + 1) as u128 } else { raw_end };
        let end: usize = if lower_end < half as u128 { lower_end as usize } else { half };
        cache.push((start, end));
        i = i + 1;
    }
    assert(cache@ =~= band_table(edges_mhz@, sample_rate as int, fft_size as int));
}

} // verus!
