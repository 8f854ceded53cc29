use vstd::prelude::*;

use crate::fixed::{abs, floor_div, isqrt};
use crate::series::BoundedSeries;
use crate::stats::{co_spread, ints, spread, sum, sum_prod, sum_sq};
use crate::SCALE;

verus! {

/// Settings of an anomaly detector.
#[derive(Clone, Copy, Debug, PartialEq, Eq)]
pub struct AnomalyDetectorConfig {
    /// How many standard deviations (in thousandths) a value may stray from the mean.
    pub threshold_multiplier: u32,
}

#[derive(Clone, Copy, Debug, PartialEq, Eq)]
pub enum AnomalyStrategy {
    Statistical,
}

/// A sample: a value in thousandths, taken at a time in microseconds since the epoch.
#[derive(Clone, Copy, Debug, PartialEq, Eq)]
pub struct TimeSeriesPoint {
    pub timestamp: i64,
    pub value: i32,
}

/// A sample that fell outside the band `[lower_bound, upper_bound]` around the mean.
#[derive(Clone, Copy, Debug, PartialEq, Eq)]
pub struct Anomaly {
    pub timestamp: i64,
    pub value: i32,
    /// By how many standard deviations (in thousandths) the value overshoots the band;
    /// the largest `i64` where the deviation is zero.
    pub severity: i64,
    pub lower_bound: i128,
    pub upper_bound: i128,
}

/// The parts of a Pearson correlation coefficient, which is
/// `co_spread / √(spread_a · spread_b)`.
#[derive(Clone, Copy, Debug, PartialEq, Eq)]
pub struct Correlation {
    /// `n·Σxy − Σx·Σy`
    pub co_spread: i128,
    /// `n·Σx² − (Σx)²`
    pub spread_a: i128,
    /// `n·Σy² − (Σy)²`
    pub spread_b: i128,
}

/// Half the width of the normal band, in thousandths, rounded down (for display).
pub open spec fn threshold(multiplier: u32, std_dev: u64) -> int {
    (multiplier as int * std_dev as int) / (SCALE as int)
}

/// `v` strays from `mean` by more than `multiplier` standard deviations: in thousandths,
/// `|v − mean| > (multiplier / 1000) · std_dev`, compared without rounding.
pub open spec fn outside_band(v: int, mean: int, multiplier: u32, std_dev: u64) -> bool {
    SCALE * abs(v - mean) > multiplier as int * std_dev as int
}

/// By how many standard deviations (in thousandths, rounded down) `v` overshoots the band:
/// `(|v − mean| − (multiplier / 1000) · std_dev) / std_dev`; the largest `i64` where the
/// deviation is zero.
pub open spec fn severity(v: int, mean: int, multiplier: u32, std_dev: u64) -> int {
    if std_dev == 0 {
        i64::MAX as int
    } else {
        (SCALE * abs(v - mean) - multiplier as int * std_dev as int) / (std_dev as int)
    }
}

/// Mean of a non-empty series, rounded down.
pub open spec fn mean_of(s: Seq<int>) -> int {
    sum(s) / s.len() as int
}

/// Standard deviation of a non-empty series, rounded down: the integer square root of
/// the variance, itself rounded down.
pub open spec fn is_std_dev(d: int, s: Seq<int>) -> bool {
    let var = spread(s) / (s.len() * s.len()) as int;
    d * d <= var < (d + 1) * (d + 1)
}

/// Mean of the last `w` items of `s`, rounded down.
pub open spec fn window_mean(s: Seq<int>, w: int) -> int {
    sum(s.subrange(s.len() - w, s.len() as int)) / w
}

/// Sum and sum of squares of `a`.
fn moments(a: &[i32]) -> (r: (i128, i128))
    requires
        a.len() <= u32::MAX,
    ensures
        r.0 == sum(ints(a@)),
        r.1 == sum_sq(ints(a@)),
        -(a.len() * 0x8000_0000) <= r.0 <= a.len() * 0x7fff_ffff,
        0 <= r.1 <= a.len() * 0x4000_0000_0000_0000,
{
    let mut s: i128 = 0;
    let mut q: i128 = 0;
    let mut i: usize = 0;
    while i < a.len()
        invariant
            i <= a.len() <= u32::MAX,
            s == sum(ints(a@).subrange(0, i as int)),
            q == sum_sq(ints(a@).subrange(0, i as int)),
            -(i * 0x8000_0000) <= s <= i * 0x7fff_ffff,
            0 <= q <= i * 0x4000_0000_0000_0000,
        decreases a.len() - i,
    {
        let x = a[i] as i128;
        assert(ints(a@).subrange(0, i + 1).drop_last() =~= ints(a@).subrange(0, i as int));
        assert(0 <= x * x <= 0x4000_0000_0000_0000) by (nonlinear_arith)
            requires
                -0x8000_0000 <= x < 0x8000_0000,
        ;
        s = s + x;
        q = q + x * x;
        i = i + 1;
    }
    assert(ints(a@).subrange(0, a.len() as int) =~= ints(a@));
    (s, q)
}

/// Sum of the products of `a` and `b` item by item.
fn cross(a: &[i32], b: &[i32]) -> (r: i128)
    requires
        a.len() == b.len() <= u32::MAX,
    ensures
        r == sum_prod(ints(a@), ints(b@)),
        -(a.len() * 0x4000_0000_0000_0000) <= r <= a.len() * 0x4000_0000_0000_0000,
{
    let mut p: i128 = 0;
    let mut i: usize = 0;
    while i < a.len()
        invariant
            i <= a.len() <= u32::MAX,
            a.len() == b.len(),
            p == sum_prod(ints(a@).subrange(0, i as int), ints(b@).subrange(0, i as int)),
            -(i * 0x4000_0000_0000_0000) <= p <= i * 0x4000_0000_0000_0000,
        decreases a.len() - i,
    {
        let x = a[i] as i128;
        let y = b[i] as i128;
        assert(ints(a@).subrange(0, i + 1).drop_last() =~= ints(a@).subrange(0, i as int));
        assert(ints(b@).subrange(0, i + 1).drop_last() =~= ints(b@).subrange(0, i as int));
        assert(-0x4000_0000_0000_0000 <= x * y <= 0x4000_0000_0000_0000) by (nonlinear_arith)
            requires
                -0x8000_0000 <= x < 0x8000_0000,
                -0x8000_0000 <= y < 0x8000_0000,
        ;
        p = p + x * y;
        i = i + 1;
    }
    assert(ints(a@).subrange(0, a.len() as int) =~= ints(a@));
    assert(ints(b@).subrange(0, b.len() as int) =~= ints(b@));
    p
}

/// Pearson correlation of two series of samples. Absent where the lengths differ or the
/// series are empty, and where either series is constant (the denominator is zero).
pub fn calculate_correlation(data1: &[i32], data2: &[i32]) -> (r: Option<Correlation>)
    requires
        data1.len() <= u32::MAX,
    ensures
        data1.len() != data2.len() || data1.len() == 0 ==> r is None,
        data1.len() == data2.len() && data1.len() > 0 ==> (r is None <==> (spread(ints(data1@))
            == 0 || spread(ints(data2@)) == 0)),
        r matches Some(c) ==> {
            &&& c.co_spread == co_spread(ints(data1@), ints(data2@))
            &&& c.spread_a == spread(ints(data1@))
            &&& c.spread_b == spread(ints(data2@))
        },
{
    if data1.len() != data2.len() || data1.len() == 0 {
        return None;
    }
    let n: i128 = data1.len() as i128;
    let (sx, qx) = moments(data1);
    let (sy, qy) = moments(data2);
    let sxy = cross(data1, data2);
    let bound: i128 = 0x3fff_ffff_ffff_ffff_ffff_ffff_ffff_ffff;
    assert(-bound <= n * sxy <= bound && -bound <= sx * sy <= bound && 0 <= n * qx <= bound && 0
        <= sx * sx <= bound && 0 <= n * qy <= bound && 0 <= sy * sy <= bound) by (nonlinear_arith)
        requires
            1 <= n <= 0xffff_ffff,
            -(n * 0x4000_0000_0000_0000) <= sxy <= n * 0x4000_0000_0000_0000,
            -(n * 0x8000_0000) <= sx <= n * 0x8000_0000,
            -(n * 0x8000_0000) <= sy <= n * 0x8000_0000,
            0 <= qx <= n * 0x4000_0000_0000_0000,
            0 <= qy <= n * 0x4000_0000_0000_0000,
            bound == 0x3fff_ffff_ffff_ffff_ffff_ffff_ffff_ffff,
    ;
    let c = n * sxy - sx * sy;
    let va = n * qx - sx * sx;
    let vb = n * qy - sy * sy;
    if va == 0 || vb == 0 {
        None
    } else {
        Some(Correlation { co_spread: c, spread_a: va, spread_b: vb })
    }
}

/// Mean of the last `window_size` samples, rounded down. Absent where the window is
/// empty or longer than the history.
pub fn predict_next_value(history: &[i32], window_size: usize) -> (r: Option<i32>)
    ensures
        r is None <==> (window_size == 0 || window_size > history.len()),
        r matches Some(v) ==> v == window_mean(ints(history@), window_size as int),
{
    if history.len() < window_size || window_size == 0 {
        return None;
    }
    let start: usize = history.len() - window_size;
    let mut s: i128 = 0;
    let mut i: usize = start;
    let ghost all = ints(history@);
    while i < history.len()
        invariant
            start <= i <= history.len(),
            start == history.len() - window_size,
            all == ints(history@),
            s == sum(all.subrange(start as int, i as int)),
            -((i - start) * 0x8000_0000) <= s <= (i - start) * 0x7fff_ffff,
        decreases history.len() - i,
    {
        assert(all.subrange(start as int, i + 1).drop_last() =~= all.subrange(
            start as int,
            i as int,
        ));
        s = s + history[i] as i128;
        i = i + 1;
    }
    let w: i128 = window_size as i128;
    let q = floor_div(s, w);
    assert(-0x8000_0000 <= q <= 0x7fff_ffff) by (nonlinear_arith)
        requires
            w >= 1,
            q * w <= s < (q + 1) * w,
            -(w * 0x8000_0000) <= s <= w * 0x7fff_ffff,
    ;
    Some(q as i32)
}

/// The mean and standard deviation a detector compares samples against; replaced
/// whole, so a reader never sees one from one training and one from another.
#[derive(Clone, Copy, Debug, PartialEq, Eq)]
pub struct Baseline {
    pub mean: i32,
    pub std_dev: u64,
}

/// Flags samples that stray from the mean of the data it was last trained on by more
/// than a multiple of its standard deviation. Before any training the mean and the
/// deviation are zero, so every value but zero is flagged.
pub struct AnomalyDetector {
    pub config: AnomalyDetectorConfig,
    pub strategy: AnomalyStrategy,
    pub baseline: Baseline,
    /// When the detector was last trained, in microseconds since the epoch.
    pub last_train_time: Option<i64>,
}

impl AnomalyDetector {
    pub fn new(config: AnomalyDetectorConfig, strategy: AnomalyStrategy) -> (r: Self)
        ensures
            r.config == config,
            r.strategy == strategy,
            r.baseline == (Baseline { mean: 0, std_dev: 0 }),
            r.last_train_time is None,
    {
        AnomalyDetector {
            config,
            strategy,
            baseline: Baseline { mean: 0, std_dev: 0 },
            last_train_time: None,
        }
    }

    /// Checks `point` against the band `mean ± multiplier · std_dev`; outside it, reports
    /// an anomaly whose severity is the overshoot in standard deviations.
    pub fn detect_statistical_anomaly(&self, point: &TimeSeriesPoint) -> (r: Option<Anomaly>)
        ensures
            ({
                let b = self.baseline;
                let k = self.config.threshold_multiplier;
                let th = threshold(k, b.std_dev);
                &&& r is Some <==> outside_band(point.value as int, b.mean as int, k, b.std_dev)
                &&& r matches Some(a) ==> {
                    &&& a.timestamp == point.timestamp
                    &&& a.value == point.value
                    &&& a.lower_bound == b.mean - th
                    &&& a.upper_bound == b.mean + th
                    &&& a.severity == severity(point.value as int, b.mean as int, k, b.std_dev)
                }
            }),
    {
        let b = self.baseline;
        let m128: u128 = self.config.threshold_multiplier as u128;
        let d128: u128 = b.std_dev as u128;
        assert(m128 * d128 <= 0xffff_ffff * 0xffff_ffff_ffff_ffff) by (nonlinear_arith)
            requires
                m128 <= 0xffff_ffff,
                d128 <= 0xffff_ffff_ffff_ffff,
        ;
        let prod: u128 = m128 * d128;
        let th: i128 = (prod / (SCALE as u128)) as i128;
        assert(0 <= th <= prod);
        let mean: i128 = b.mean as i128;
        let v: i128 = point.value as i128;
        let lower = mean - th;
        let upper = mean + th;
        let dev: i128 = if v >= mean {
            v - mean
        } else {
            mean - v
        };
        assert(0 <= dev <= 0x1_0000_0000);
        assert(0 <= dev * (SCALE as i128) <= 0x1_0000_0000 * 1000) by (nonlinear_arith)
            requires
                0 <= dev <= 0x1_0000_0000,
                SCALE == 1000,
        ;
        let scaled: i128 = dev * (SCALE as i128);
        let p: i128 = prod as i128;
        assert(dev == abs(v - mean));
        assert(scaled == SCALE * abs(v - mean)) by (nonlinear_arith)
            requires
                scaled == dev * (SCALE as i128),
                dev == abs(v - mean),
        ;
        assert(p == self.config.threshold_multiplier as int * b.std_dev as int);
        if scaled > p {
            let severity: i64 = if b.std_dev == 0 {
                i64::MAX
            } else {
                let excess: i128 = scaled - p;
                assert(0 < excess <= 0x1_0000_0000 * 1000);
                let q = floor_div(excess, b.std_dev as i128);
                assert(0 <= q <= excess) by (nonlinear_arith)
                    requires
                        excess >= 0,
                        b.std_dev >= 1,
                        q * b.std_dev <= excess < (q + 1) * b.std_dev,
                ;
                q as i64
            };
            Some(Anomaly {
                timestamp: point.timestamp,
                value: point.value,
                severity,
                lower_bound: lower,
                upper_bound: upper,
            })
        } else {
            None
        }
    }

    /// Recomputes mean and standard deviation from the samples of `series`, and records
    /// `at` as the time of training. An empty series gives zero for both.
    pub fn train_model(&mut self, series: &BoundedSeries<i32>, at: i64)
        requires
            series@.len() <= u32::MAX,
        ensures
            final(self).config == old(self).config,
            final(self).strategy == old(self).strategy,
            final(self).last_train_time == Some(at),
            series@.len() == 0 ==> final(self).baseline == (Baseline { mean: 0, std_dev: 0 }),
            series@.len() > 0 ==> final(self).baseline.mean == mean_of(ints(series@))
                && is_std_dev(final(self).baseline.std_dev as int, ints(series@)),
    {
        let data = series.to_vec();
        let n = data.len();
        if n == 0 {
            self.baseline = Baseline { mean: 0, std_dev: 0 };
            self.last_train_time = Some(at);
            return ;
        }
        let (s, q) = moments(&data);
        let n128: i128 = n as i128;
        let mean = floor_div(s, n128);
        assert(-0x8000_0000 <= mean < 0x8000_0000) by (nonlinear_arith)
            requires
                n128 >= 1,
                mean * n128 <= s < (mean + 1) * n128,
                -(n128 * 0x8000_0000) <= s <= n128 * 0x7fff_ffff,
        ;
        let bound: i128 = 0x3fff_ffff_ffff_ffff_ffff_ffff_ffff_ffff;
        assert(0 <= n128 * q <= bound && 0 <= s * s <= bound && 1 <= n128 * n128 <= bound)
            by (nonlinear_arith)
            requires
                1 <= n128 <= 0xffff_ffff,
                -(n128 * 0x8000_0000) <= s <= n128 * 0x7fff_ffff,
                0 <= q <= n128 * 0x4000_0000_0000_0000,
                bound == 0x3fff_ffff_ffff_ffff_ffff_ffff_ffff_ffff,
        ;
        let spread_v: i128 = n128 * q - s * s;
        proof {
            crate::stats::lemma_correlation_bounded(ints(data@), ints(data@));
        }
        let var = floor_div(spread_v, n128 * n128);
        assert(var >= 0) by (nonlinear_arith)
            requires
                spread_v >= 0,
                n128 * n128 >= 1,
                var * (n128 * n128) <= spread_v < (var + 1) * (n128 * n128),
        ;
        let d = isqrt(var as u128);
        self.baseline = Baseline { mean: mean as i32, std_dev: d };
        self.last_train_time = Some(at);
    }

}

} // verus!
