//! Coordinate-mapped rendering of spectra and features.
//!
//! Wavelengths map linearly onto `[0, canvas_width]` and powers onto
//! `[canvas_height, 0]` (inverted, so higher power draws higher).
//! Out-of-range samples clamp to the limits rather than drop, keeping
//! the path continuous.  Canvas sizes are whole pixels; emitted
//! coordinates are milli-pixels, so the mapping is exact integer
//! arithmetic and therefore deterministic.
use vstd::prelude::*;

use crate::detect::DetectionParams;
use crate::detect::Feature;
use crate::spectrum::Sample;
use crate::timeseries::TimeSeriesConfig;

verus! {

/// One drawable point, in milli-pixels.
#[derive(Clone, Copy, Debug, PartialEq, Eq, Structural)]
pub struct Point {
    pub x: i64,
    pub y: i64,
}

/// The immutable rendering snapshot: canvas size in pixels, display
/// limits in milli-units, detection parameters and the time-series
/// window.  Compared field by field to detect staleness.
#[derive(Clone, Copy, Debug, PartialEq, Eq, Structural)]
pub struct DrawInfo {
    pub canvas_width: i64,
    pub canvas_height: i64,
    pub wl_min: i64,
    pub wl_max: i64,
    pub pw_min: i64,
    pub pw_max: i64,
    pub valley_detection: DetectionParams,
    pub peak_detection: DetectionParams,
    pub time_series: TimeSeriesConfig,
}

impl DrawInfo {
    /// Bounds under which every mapping below is exact and overflow
    /// free: a non-degenerate canvas of at most 10000 pixels a side and
    /// ordered limits within a billion milli-units.
    pub open spec fn valid(self) -> bool {
        &&& 1 <= self.canvas_width <= 10_000
        &&& 1 <= self.canvas_height <= 10_000
        &&& -1_000_000_000 <= self.wl_min < self.wl_max <= 1_000_000_000
        &&& -1_000_000_000 <= self.pw_min < self.pw_max <= 1_000_000_000
        &&& self.valley_detection.valid()
        &&& self.peak_detection.valid()
        &&& self.time_series.valid()
    }
}

/// `v` forced into `[lo, hi]`.
pub open spec fn spec_clamp(v: int, lo: int, hi: int) -> int {
    if v < lo {
        lo
    } else if v > hi {
        hi
    } else {
        v
    }
}

/// Horizontal position of wavelength `wl`, in milli-pixels.
pub open spec fn map_x(info: DrawInfo, wl: int) -> int {
    (spec_clamp(wl, info.wl_min as int, info.wl_max as int) - info.wl_min) * (info.canvas_width
        * 1000) / (info.wl_max - info.wl_min)
}

/// Vertical position of power `pw`, in milli-pixels, inverted.
pub open spec fn map_y(info: DrawInfo, pw: int) -> int {
    (info.pw_max - spec_clamp(pw, info.pw_min as int, info.pw_max as int)) * (info.canvas_height
        * 1000) / (info.pw_max - info.pw_min)
}

/// Where sample `s` lands on the canvas.
pub open spec fn map_point(info: DrawInfo, s: Sample) -> Point {
    Point { x: map_x(info, s.wavelength as int) as i64, y: map_y(info, s.power as int) as i64 }
}

/// Where feature `f`'s marker lands on the canvas.
pub open spec fn map_feature_point(info: DrawInfo, f: Feature) -> Point {
    Point { x: map_x(info, f.wavelength as int) as i64, y: map_y(info, f.power as int) as i64 }
}

/// Linear map of `v` clamped into `[lo, hi]` onto `[0, extent]` pixels,
/// in milli-pixels.  The building block behind `map_x` and `map_y`.
fn scale_clamped(v: i64, lo: i64, hi: i64, extent: i64) -> (r: i64)
    requires
        -2_000_000_000 <= lo < hi <= 2_000_000_000,
        1 <= extent <= 10_000,
    ensures
        r == (spec_clamp(v as int, lo as int, hi as int) - lo) * (extent * 1000) / (hi - lo),
        0 <= r <= extent * 1000,
{
    let c: i64 = if v < lo {
        lo
    } else if v > hi {
        hi
    } else {
        v
    };
    let num: i64 = c - lo;
    let den: i64 = hi - lo;
    let k: i64 = extent * 1000;
    proof {
        assert(0 <= num <= 4_000_000_000);
        assert(num * k <= 4_000_000_000 * 10_000_000 && 0 <= num * k) by (nonlinear_arith)
            requires
                0 <= num <= 4_000_000_000,
                0 <= k <= 10_000_000,
        ;
        assert((num as int) * (k as int) / (den as int) <= k as int) by (nonlinear_arith)
            requires
                0 <= num <= den,
                0 < den,
                0 <= k,
        ;
    }
    let wide: u64 = (num as u64) * (k as u64) / (den as u64);
    wide as i64
}

/// Vertical position of value `v` against the limits `[lo, hi]` on a
/// canvas `extent` pixels tall, inverted, in milli-pixels.
pub open spec fn spec_scale_y(v: int, lo: int, hi: int, extent: int) -> int {
    (hi - spec_clamp(v, lo, hi)) * (extent * 1000) / (hi - lo)
}

/// Maps a value onto the inverted vertical axis.
pub fn scale_y(v: i64, lo: i64, hi: i64, extent: i64) -> (r: i64)
    requires
        -1_000_000_000 <= lo < hi <= 1_000_000_000,
        1 <= extent <= 10_000,
    ensures
        r == spec_scale_y(v as int, lo as int, hi as int, extent as int),
        0 <= r <= extent * 1000,
{
    let c: i64 = if v < lo {
        lo
    } else if v > hi {
        hi
    } else {
        v
    };
    scale_clamped(hi - c, 0, hi - lo, extent)
}

/// Maps one sample through the current draw info.
pub fn render_sample(info: &DrawInfo, s: Sample) -> (r: Point)
    requires
        info.valid(),
    ensures
        r == map_point(*info, s),
{
    let x: i64 = scale_clamped(s.wavelength, info.wl_min, info.wl_max, info.canvas_width);
    // Clamp first, then invert the vertical axis: the inverted value
    // already lies in [0, pw_max - pw_min], so the inner clamp of
    // `scale_clamped` is the identity on it.
    let pc: i64 = if s.power < info.pw_min {
        info.pw_min
    } else if s.power > info.pw_max {
        info.pw_max
    } else {
        s.power
    };
    let y: i64 = scale_clamped(
        info.pw_max - pc,
        0,
        info.pw_max - info.pw_min,
        info.canvas_height,
    );
    Point { x, y }
}

/// Renders a whole spectrum: one point per sample, in order.
pub fn render_spectrum(info: &DrawInfo, samples: &Vec<Sample>) -> (r: Vec<Point>)
    requires
        info.valid(),
    ensures
        r@.len() == samples@.len(),
        forall|k: int| 0 <= k < r@.len() ==> r@[k] == map_point(*info, #[trigger] samples@[k]),
{
    let mut r: Vec<Point> = Vec::new();
    let n: usize = samples.len();
    let mut i: usize = 0;
    while i < n
        invariant
            info.valid(),
            n == samples@.len(),
            i == r@.len() <= n,
            forall|k: int| 0 <= k < i ==> r@[k] == map_point(*info, #[trigger] samples@[k]),
        decreases n - i,
    {
        let p = render_sample(info, samples[i]);
        r.push(p);
        i = i + 1;
    }
    r
}

/// Renders feature markers through the same transform as the spectrum.
pub fn render_feature_points(info: &DrawInfo, features: &Vec<Feature>) -> (r: Vec<Point>)
    requires
        info.valid(),
    ensures
        r@.len() == features@.len(),
        forall|k: int| 0 <= k < r@.len() ==> r@[k] == map_feature_point(
            *info,
            #[trigger] features@[k],
        ),
{
    let mut r: Vec<Point> = Vec::new();
    let n: usize = features.len();
    let mut i: usize = 0;
    while i < n
        invariant
            info.valid(),
            n == features@.len(),
            i == r@.len() <= n,
            forall|k: int| 0 <= k < i ==> r@[k] == map_feature_point(*info, #[trigger] features@[k]),
        decreases n - i,
    {
        let f = features[i];
        let p = render_sample(info, Sample { wavelength: f.wavelength, power: f.power });
        r.push(p);
        i = i + 1;
    }
    r
}

/// Law: the renderer is a pure function of its inputs — identical
/// (sample sequence, draw info) pairs always map to identical point
/// sequences, because every point is `map_point` of its sample.
pub proof fn lemma_path_renderer_deterministic(
    info1: DrawInfo,
    info2: DrawInfo,
    s1: Seq<Sample>,
    s2: Seq<Sample>,
    r1: Seq<Point>,
    r2: Seq<Point>,
)
    requires
        info1 == info2,
        s1 == s2,
        r1.len() == s1.len(),
        r2.len() == s2.len(),
        forall|k: int| 0 <= k < r1.len() ==> r1[k] == map_point(info1, #[trigger] s1[k]),
        forall|k: int| 0 <= k < r2.len() ==> r2[k] == map_point(info2, #[trigger] s2[k]),
    ensures
        r1 == r2,
{
    assert forall|k: int| 0 <= k < r1.len() implies r1[k] == r2[k] by {
        assert(r1[k] == map_point(info1, s1[k]));
        assert(r2[k] == map_point(info2, s2[k]));
    }
    assert(r1 =~= r2);
}

} // verus!
