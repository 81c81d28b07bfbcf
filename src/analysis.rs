//! Fixed-point spectral analysis: per-band RMS energy, gain shaping,
//! percentile normalisation and contrast enhancement.
//!
//! FFT output bins are complex values with integer parts; spectrum levels are
//! integers where `LEVEL_ONE` stands for full scale.
use vstd::prelude::*;
use vstd::relations::{sorted_by, total_ordering};

verus! {

/// One complex FFT output bin in fixed point.
#[derive(Clone, Copy, Debug, PartialEq, Eq)]
pub struct BinValue {
    pub re: i32,
    pub im: i32,
}

/// Squared magnitude of a bin.
pub open spec fn power(b: BinValue) -> int {
    (b.re as int) * (b.re as int) + (b.im as int) * (b.im as int)
}

/// Sum of squared magnitudes over the bins `[start, end)`.
pub open spec fn sum_power(bins: Seq<BinValue>, start: int, end: int) -> int
    decreases end - start,
{
    if end <= start {
        0
    } else {
        sum_power(bins, start, end - 1) + power(bins[end - 1])
    }
}

/// `r` is the integer square root of `n`.
pub open spec fn is_isqrt(r: int, n: int) -> bool {
    0 <= r && r * r <= n && n < (r + 1) * (r + 1)
}

/// The integer square root of a non-negative number.
pub open spec fn isqrt_spec(n: int) -> int {
    choose|r: int| is_isqrt(r, n)
}

proof fn lemma_power_bounds(b: BinValue)
    ensures
        0 <= power(b) <= 0x8000_0000_0000_0000,
{
    let re = b.re as int;
    let im = b.im as int;
    assert(0 <= re * re <= 0x4000_0000_0000_0000) by (nonlinear_arith)
        requires
            -0x8000_0000 <= re <= 0x7fff_ffff,
    ;
    assert(0 <= im * im <= 0x4000_0000_0000_0000) by (nonlinear_arith)
        requires
            -0x8000_0000 <= im <= 0x7fff_ffff,
    ;
}

proof fn lemma_isqrt_unique(a: int, b: int, n: int)
    requires
        is_isqrt(a, n),
        is_isqrt(b, n),
    ensures
        a == b,
{
    if a < b {
        assert((a + 1) * (a + 1) <= b * b) by (nonlinear_arith)
            requires
                0 <= a,
                a + 1 <= b,
        ;
    } else if b < a {
        assert((b + 1) * (b + 1) <= a * a) by (nonlinear_arith)
            requires
                0 <= b,
                b + 1 <= a,
        ;
    }
}

/// Sum of the squared magnitudes of `spectrum[start_idx..end_idx]`.
pub fn compute_magnitudes(spectrum: &Vec<BinValue>, start_idx: usize, end_idx: usize) -> (r: u128)
    requires
        start_idx <= end_idx <= spectrum@.len(),
    ensures
        r == sum_power(spectrum@, start_idx as int, end_idx as int),
{
    let mut sum_squares: u128 = 0;
    let mut i: usize = start_idx;
    while i < end_idx
        invariant
            start_idx <= i <= end_idx <= spectrum@.len(),
            sum_squares == sum_power(spectrum@, start_idx as int, i as int),
            sum_squares <= (i - start_idx) * 0x8000_0000_0000_0000,
        decreases end_idx - i,
    {
        let b = spectrum[i];
        proof {
            lemma_power_bounds(b);
        }
        let re = b.re as i64;
        let im = b.im as i64;
        assert(0 <= re * re <= 0x4000_0000_0000_0000 && 0 <= im * im <= 0x4000_0000_0000_0000) by (nonlinear_arith)
            requires
                -0x8000_0000 <= re <= 0x7fff_ffff,
                -0x8000_0000 <= im <= 0x7fff_ffff,
        ;
        let mag_sq: u128 = (re * re) as u128 + (im * im) as u128;
        assert((i - start_idx) * 0x8000_0000_0000_0000 + 0x8000_0000_0000_0000 == (i + 1 - start_idx) * 0x8000_0000_0000_0000) by (nonlinear_arith);
        assert((i + 1 - start_idx) * 0x8000_0000_0000_0000 <= 0xffff_ffff_ffff_ffff * 0x8000_0000_0000_0000) by (nonlinear_arith)
            requires
                i + 1 - start_idx <= 0xffff_ffff_ffff_ffff,
        ;
        sum_squares = sum_squares + mag_sq;
        i = i + 1;
    }
    sum_squares
}

/// Integer square root: the largest `r` with `r * r <= n`.
pub fn isqrt(n: u128) -> (r: u64)
    ensures
        is_isqrt(r as int, n as int),
        r == isqrt_spec(n as int),
{
    let mut lo: u128 = 0;
    let mut hi: u128 = 0x1_0000_0000_0000_0000;
    assert(n < hi * hi) by (nonlinear_arith)
        requires
            n <= u128::MAX,
            hi == 0x1_0000_0000_0000_0000,
    ;
    while hi - lo > 1
        invariant
            lo < hi <= 0x1_0000_0000_0000_0000,
            lo * lo <= n,
            n < hi * hi,
        decreases hi - lo,
    {
        let mid: u128 = lo + (hi - lo) / 2;
        assert(mid * mid <= 0xffff_ffff_ffff_ffff * 0xffff_ffff_ffff_ffff) by (nonlinear_arith)
            requires
                0 <= mid < 0x1_0000_0000_0000_0000,
        ;
        if mid * mid <= n {
            lo = mid;
        } else {
            hi = mid;
        }
    }
    proof {
        lemma_isqrt_unique(lo as int, isqrt_spec(n as int), n as int);
    }
    lo as u64
}

/// RMS energy of one band: the integer square root of the mean squared
/// magnitude over its bins, or 0 for an empty band.
pub open spec fn band_energy(bins: Seq<BinValue>, entry: (usize, usize)) -> int {
    if entry.0 < entry.1 {
        isqrt_spec(sum_power(bins, entry.0 as int, entry.1 as int) / (entry.1 - entry.0))
    } else {
        0
    }
}

/// The RMS energy of every band of `table`.
pub open spec fn band_energies_spec(bins: Seq<BinValue>, table: Seq<(usize, usize)>) -> Seq<u64> {
    Seq::new(table.len(), |i: int| band_energy(bins, table[i]) as u64)
}

pub open spec fn table_in_bounds(table: Seq<(usize, usize)>, len: int) -> bool {
    forall|i: int| 0 <= i < table.len() ==> (#[trigger] table[i]).1 <= len
}

/// Computes the RMS energy of each band of `table` over `spectrum`.
pub fn band_energies(spectrum: &Vec<BinValue>, table: &Vec<(usize, usize)>) -> (r: Vec<u64>)
    requires
        table_in_bounds(table@, spectrum@.len() as int),
    ensures
        r@ == band_energies_spec(spectrum@, table@),
{
    let mut bands: Vec<u64> = Vec::new();
    let mut i: usize = 0;
    while i < table.len()
        invariant
            i <= table@.len(),
            table_in_bounds(table@, spectrum@.len() as int),
            bands@.len() == i,
            forall|k: int| 0 <= k < i ==> bands@[k] == band_energy(spectrum@, table@[k]) as u64,
        decreases table@.len() - i,
    {
        let (start_idx, end_idx) = table[i];
        let mut energy: u64 = 0;
        if start_idx < end_idx {
            let sum_squares = compute_magnitudes(spectrum, start_idx, end_idx);
            let count = (end_idx - start_idx) as u128;
            energy = isqrt(sum_squares / count);
        }
        bands.push(energy);
        i = i + 1;
    }
    assert(bands@ =~= band_energies_spec(spectrum@, table@));
    bands
}

/// A band's value after gain shaping, for band `i` of `n`: bands below 30% of
/// the range are attenuated by `1 - (0.3 - i/n) * 2`, bands above 80% are
/// boosted by `1 + (i/n - 0.8) * 1.5` (capped at the largest `u64`), the rest
/// are kept.
pub open spec fn compensated(b: int, i: int, n: int) -> int {
    if 10 * i < 3 * n {
        b * (2 * n + 10 * i) / (5 * n)
    } else if 10 * i > 8 * n {
        let boosted = b * (15 * i - 2 * n) / (10 * n);
        if boosted > u64::MAX { u64::MAX as int } else { boosted }
    } else {
        b
    }
}

/// A spectrum after gain shaping.
pub open spec fn gain_compensated(bands: Seq<u64>) -> Seq<u64> {
    Seq::new(bands.len(), |i: int| compensated(bands[i] as int, i, bands.len() as int) as u64)
}

/// Applies the frequency-dependent gain to every band, in place.
pub fn apply_band_gain_compensation(bands: &mut Vec<u64>)
    requires
        old(bands)@.len() <= u32::MAX,
    ensures
        final(bands)@ == gain_compensated(old(bands)@),
{
    let bands_len: usize = bands.len();
    let n = bands_len as u128;
    let mut i: usize = 0;
    while i < bands_len
        invariant
            i <= bands_len,
            bands_len <= u32::MAX,
            n == bands_len,
            bands@.len() == bands_len,
            forall|k: int| 0 <= k < i ==>
                (#[trigger] bands@[k]) as int == compensated(old(bands)@[k] as int, k, bands_len as int),
            forall|k: int| i <= k < bands_len ==> (#[trigger] bands@[k]) == old(bands)@[k],
        decreases bands_len - i,
    {
        let b = bands[i] as u128;
        let idx = i as u128;
        if 10 * idx < 3 * n {
            let factor: u128 = 2 * n + 10 * idx;
            assert(b * factor <= 0xffff_ffff_ffff_ffff * (5 * 0xffff_ffff)) by (nonlinear_arith)
                requires
                    b <= 0xffff_ffff_ffff_ffff,
                    factor <= 5 * 0xffff_ffff,
            ;
            let scaled = b * factor / (5 * n);
            assert(scaled <= b) by (nonlinear_arith)
                requires
                    scaled == b * factor / (5 * n),
                    factor < 5 * n,
                    b >= 0,
            ;
            bands.set(i, scaled as u64);
        } else if 10 * idx > 8 * n {
            let factor: u128 = 15 * idx - 2 * n;
            assert(b * factor <= 0xffff_ffff_ffff_ffff * (15 * 0xffff_ffff)) by (nonlinear_arith)
                requires
                    b <= 0xffff_ffff_ffff_ffff,
                    factor <= 15 * 0xffff_ffff,
            ;
            let boosted = b * factor / (10 * n);
            if boosted > u64::MAX as u128 {
                bands.set(i, u64::MAX);
            } else {
                bands.set(i, boosted as u64);
            }
        }
        i = i + 1;
    }
    assert(bands@ =~= gain_compensated(old(bands)@));
}

/// Full scale of a spectrum level.
pub const LEVEL_ONE: u32 = 1_000_000;

/// Largest level contrast enhancement can produce (1.4 of full scale).
pub const LEVEL_MAX: u32 = 1_400_000;

/// Smallest reference a spectrum is divided by.
pub const MIN_REFERENCE: u64 = 1;

/// The order in which band values are ranked.
pub open spec fn level_leq() -> spec_fn(u64, u64) -> bool {
    |a: u64, b: u64| a <= b
}

/// Relies on `slice::sort_unstable`, which sorts the values in ascending order
/// without adding or dropping any.
#[verifier::external_body]
fn sort_levels(v: &mut Vec<u64>)
    ensures
        final(v)@.to_multiset() == old(v)@.to_multiset(),
        sorted_by(final(v)@, level_leq()),
{
    v.sort_unstable();
}

/// Index of the 95th percentile in a sorted list of `len` values, at least 1.
pub open spec fn percentile_index(len: int) -> int {
    let idx = len * 95 / 100;
    if idx < 1 { 1 } else { idx }
}

/// The reference a spectrum is scaled by: its 95th-percentile value, floored
/// at `MIN_REFERENCE`.
pub open spec fn reference_level(bands: Seq<u64>) -> int {
    let v = bands.sort_by(level_leq())[percentile_index(bands.len() as int)] as int;
    if v < MIN_REFERENCE { MIN_REFERENCE as int } else { v }
}

/// A value divided by the reference, in levels, clamped to full scale.
pub open spec fn normalized(b: int, reference: int) -> int {
    let x = b * (LEVEL_ONE as int) / reference;
    if x > LEVEL_ONE { LEVEL_ONE as int } else { x }
}

/// Contrast curve on a level `x` in `[0, LEVEL_ONE]`: below 0.1 scaled by 0.1,
/// above 0.9 mapped to `0.9 + (x - 0.9) * 5`, in between
/// `0.01 + 0.98 * ((x - 0.1) / 0.8)^2`.
pub open spec fn s_curve(x: int) -> int {
    if x < 100_000 {
        x / 10
    } else if x > 900_000 {
        900_000 + (x - 900_000) * 5
    } else {
        10_000 + 49 * ((x - 100_000) * (x - 100_000)) / 32_000_000
    }
}

/// A spectrum after normalisation and contrast enhancement.
pub open spec fn enhanced(bands: Seq<u64>) -> Seq<u32> {
    Seq::new(bands.len(), |i: int| s_curve(normalized(bands[i] as int, reference_level(bands))) as u32)
}

/// The contrast curve keeps every full-scale level within `[0, LEVEL_MAX]`.
pub proof fn lemma_s_curve_bounded(x: int)
    requires
        0 <= x <= LEVEL_ONE,
    ensures
        0 <= s_curve(x) <= LEVEL_MAX,
{
    if 100_000 <= x <= 900_000 {
        assert(0 <= (x - 100_000) * (x - 100_000) <= 800_000 * 800_000) by (nonlinear_arith)
            requires
                0 <= x - 100_000 <= 800_000,
        ;
    }
}

/// After normalisation and enhancement every level of a spectrum with at
/// least two bands lies in `[0, LEVEL_MAX]`.
pub proof fn lemma_enhanced_bounded(bands: Seq<u64>)
    requires
        bands.len() >= 2,
    ensures
        forall|i: int| 0 <= i < bands.len() ==> 0 <= #[trigger] enhanced(bands)[i] <= LEVEL_MAX,
{
    let reference = reference_level(bands);
    assert forall|i: int| 0 <= i < bands.len() implies 0 <= #[trigger] enhanced(bands)[i] <= LEVEL_MAX by {
        let x = normalized(bands[i] as int, reference);
        assert(0 <= bands[i] * (LEVEL_ONE as int) / reference) by (nonlinear_arith)
            requires
                bands[i] >= 0,
                reference >= 1,
        ;
        lemma_s_curve_bounded(x);
    }
}

/// Applies the contrast curve to one level.
pub fn s_curve_enhancement(x: u32) -> (r: u32)
    requires
        x <= LEVEL_ONE,
    ensures
        r == s_curve(x as int),
        r <= LEVEL_MAX,
{
    proof {
        lemma_s_curve_bounded(x as int);
    }
    if x < 100_000 {
        x / 10
    } else if x > 900_000 {
        900_000 + (x - 900_000) * 5
    } else {
        let d = (x - 100_000) as u64;
        assert(d * d <= 800_000 * 800_000) by (nonlinear_arith)
            requires
                d <= 800_000,
        ;
        (10_000 + 49 * (d * d) / 32_000_000) as u32
    }
}

proof fn lemma_level_leq_total()
    ensures
        total_ordering(level_leq()),
{
}

/// Scales a spectrum by its 95th-percentile value and applies the contrast
/// curve to every band.
pub fn improved_normalize_spectrum(bands: &Vec<u64>) -> (r: Vec<u32>)
    requires
        bands@.len() >= 2,
    ensures
        r@ == enhanced(bands@),
        forall|i: int| 0 <= i < r@.len() ==> #[trigger] r@[i] <= LEVEL_MAX,
{
    let mut sorted_bands: Vec<u64> = Vec::new();
    let mut k: usize = 0;
    while k < bands.len()
        invariant
            k <= bands@.len(),
            sorted_bands@ == bands@.subrange(0, k as int),
        decreases bands@.len() - k,
    {
        sorted_bands.push(bands[k]);
        k = k + 1;
        assert(sorted_bands@ =~= bands@.subrange(0, k as int));
    }
    assert(sorted_bands@ =~= bands@);
    sort_levels(&mut sorted_bands);
    proof {
        broadcast use vstd::seq_lib::group_to_multiset_ensures;
        assert(sorted_bands@.len() == sorted_bands@.to_multiset().len());
        assert(bands@.len() == bands@.to_multiset().len());
        lemma_level_leq_total();
        bands@.lemma_sort_by_ensures(level_leq());
        vstd::seq_lib::lemma_sorted_unique(sorted_bands@, bands@.sort_by(level_leq()), level_leq());
    }
    let len: usize = bands.len();
    assert((len as int) * 95 / 100 < len) by (nonlinear_arith)
        requires
            len >= 2,
    ;
    let scaled_idx = ((len as u128) * 95 / 100) as usize;
    let idx: usize = if scaled_idx < 1 { 1 } else { scaled_idx };
    let picked: u64 = sorted_bands[idx];
    let reference: u64 = if picked < MIN_REFERENCE { MIN_REFERENCE } else { picked };
    assert(reference as int == reference_level(bands@));
    let mut out: Vec<u32> = Vec::new();
    let mut i: usize = 0;
    while i < len
        invariant
            len == bands@.len(),
            reference as int == reference_level(bands@),
            reference >= 1,
            i <= len,
            out@.len() == i,
            forall|j: int| 0 <= j < i ==> out@[j] == enhanced(bands@)[j],
            forall|j: int| 0 <= j < i ==> #[trigger] out@[j] <= LEVEL_MAX,
        decreases len - i,
    {
        let b = bands[i] as u128;
        assert(b * 1_000_000 <= 0xffff_ffff_ffff_ffff * 1_000_000) by (nonlinear_arith)
            requires
                b <= 0xffff_ffff_ffff_ffff,
        ;
        let q: u128 = b * (LEVEL_ONE as u128) / (reference as u128);
        let x: u32 = if q > LEVEL_ONE as u128 { LEVEL_ONE } else { q as u32 };
        let level = s_curve_enhancement(x);
        out.push(level);
        i = i + 1;
    }
    assert(out@ =~= enhanced(bands@));
    out
}

/// The spectrum levels computed from the FFT bins of one window with a band
/// table: band RMS energies, then gain shaping, then normalisation and
/// contrast enhancement.
pub open spec fn spectrum_of(bins: Seq<BinValue>, table: Seq<(usize, usize)>) -> Seq<u32> {
    enhanced(gain_compensated(band_energies_spec(bins, table)))
}

proof fn lemma_sum_power_silent(bins: Seq<BinValue>, start: int, end: int)
    requires
        0 <= start,
        end <= bins.len(),
        forall|k: int| 0 <= k < bins.len() ==> power(#[trigger] bins[k]) == 0,
    ensures
        sum_power(bins, start, end) == 0,
    decreases end - start,
{
    if end > start {
        lemma_sum_power_silent(bins, start, end - 1);
    }
}

/// Silence in gives silence out: FFT bins that are all zero yield a spectrum
/// whose every level is zero.
pub proof fn lemma_silence_gives_zero_spectrum(bins: Seq<BinValue>, table: Seq<(usize, usize)>)
    requires
        table_in_bounds(table, bins.len() as int),
        forall|k: int| 0 <= k < bins.len() ==> #[trigger] bins[k] == (BinValue { re: 0, im: 0 }),
    ensures
        spectrum_of(bins, table) =~= Seq::new(table.len(), |i: int| 0u32),
{
    assert(is_isqrt(0, 0));
    lemma_isqrt_unique(0, isqrt_spec(0), 0);
    let energies = band_energies_spec(bins, table);
    assert forall|i: int| 0 <= i < energies.len() implies #[trigger] energies[i] == 0 by {
        lemma_sum_power_silent(bins, table[i].0 as int, table[i].1 as int);
    }
    let shaped = gain_compensated(energies);
    assert forall|i: int| 0 <= i < shaped.len() implies #[trigger] shaped[i] == 0 by {
        let n = energies.len() as int;
        assert(0 * (2 * n + 10 * i) == 0 && 0 * (15 * i - 2 * n) == 0);
    }
    let reference = reference_level(shaped);
    assert(0 * (LEVEL_ONE as int) / reference == 0);
    assert(spectrum_of(bins, table) =~= Seq::new(table.len(), |i: int| 0u32));
}

/// Turns the FFT output of a sample window into spectrum levels, using a band
/// table computed once at construction.
pub struct SpectralAnalyzer {
    band_index: Vec<(usize, usize)>,
    fft_size: usize,
}

impl SpectralAnalyzer {
    /// The band table in use.
    pub closed spec fn table(&self) -> Seq<(usize, usize)> {
        self.band_index@
    }

    /// The FFT length the analyzer expects.
    pub closed spec fn fft_len(&self) -> nat {
        self.fft_size as nat
    }

    pub open spec fn wf(&self) -> bool {
        &&& 2 <= self.table().len() <= u32::MAX
        &&& table_in_bounds(self.table(), (self.fft_len() / 2) as int)
    }

    /// Builds an analyzer for `fft_size`-point transforms of audio sampled at
    /// `sample_rate`, with bands bounded by `edges_mhz` (in millihertz).
    pub fn new(edges_mhz: &Vec<u64>, sample_rate: u32, fft_size: usize) -> (s: Self)
        requires
            sample_rate > 0,
            fft_size >= 2,
            3 <= edges_mhz@.len() <= u32::MAX as int + 1,
        ensures
            s.wf(),
            s.table() == crate::band_map::band_table(edges_mhz@, sample_rate as int, fft_size as int),
            s.fft_len() == fft_size,
            fft_size >= 4 && crate::band_map::edges_sorted(edges_mhz@)
                ==> crate::band_map::table_valid(s.table(), fft_size as int),
    {
        let mut band_index: Vec<(usize, usize)> = Vec::new();
        crate::band_map::init_band_indices_cache(&mut band_index, edges_mhz, sample_rate, fft_size);
        let ghost table = crate::band_map::band_table(edges_mhz@, sample_rate as int, fft_size as int);
        assert forall|i: int| 0 <= i < table.len() implies (#[trigger] table[i]).1 <= fft_size / 2 by {
            assert(table[i] == crate::band_map::band_entry(edges_mhz@, sample_rate as int, fft_size as int, i));
        }
        proof {
            if fft_size >= 4 && crate::band_map::edges_sorted(edges_mhz@) {
                crate::band_map::lemma_band_table_valid(edges_mhz@, sample_rate as int, fft_size as int);
            }
        }
        SpectralAnalyzer { band_index, fft_size }
    }

    /// Computes the spectrum levels of one window from its `fft_size` FFT bins;
    /// only the non-negative frequencies (the first half) are read.
    pub fn analyze(&self, bins: &Vec<BinValue>) -> (r: Vec<u32>)
        requires
            self.wf(),
            bins@.len() == self.fft_len(),
        ensures
            r@ == spectrum_of(bins@, self.table()),
            r@.len() == self.table().len(),
            forall|i: int| 0 <= i < r@.len() ==> #[trigger] r@[i] <= LEVEL_MAX,
    {
        let mut bands = band_energies(bins, &self.band_index);
        apply_band_gain_compensation(&mut bands);
        improved_normalize_spectrum(&bands)
    }
}

} // verus!
